use vshell::command::Command;
use vshell::command::ParseError;
use vshell::executor::ExecError;

fn toks(words: &[&str]) -> Vec<String> {
    words.iter().map(|w| String::from(*w)).collect()
}

#[test]
fn parse_error_messages() {
    assert_eq!(
        ParseError::PwdTooManyArgs.message(),
        String::from("too many arguments/options")
    );
    assert_eq!(
        ParseError::CdTooManyArgs.message(),
        String::from("cd requires one argument")
    );
    assert_eq!(
        ParseError::LsInvalidOption('z').message(),
        String::from("invalid option -z")
    );
    assert_eq!(
        ParseError::EchoMissingArg.message(),
        String::from("echo requires an argument")
    );
    assert_eq!(
        ParseError::CatMissingArg.message(),
        String::from("cat requires an argument")
    );
    assert_eq!(
        ParseError::CpMissingArgs.message(),
        String::from("cp requires at least two arguments: source & target")
    );
    assert_eq!(
        ParseError::RmMissingArg.message(),
        String::from("rm requires at least one argument")
    );
    assert_eq!(
        ParseError::RmMissingPath.message(),
        String::from("missing a path")
    );
    assert_eq!(
        ParseError::RmInvalidOption(String::from("-q")).message(),
        String::from("invalid option <-q>, expected options: -r")
    );
    assert_eq!(
        ParseError::MvMissingArgs.message(),
        String::from("mv requires at least two arguments: source(s) and destination")
    );
    assert_eq!(
        ParseError::MkdirMissingArg.message(),
        String::from("mkdir requires at least one argument")
    );
    assert_eq!(
        ParseError::UnknownCommand(String::from("boom")).message(),
        String::from("command <boom> not found")
    );
}

#[test]
fn parse_error_message_from_a_bad_line() {
    let err = Command::parse(&toks(&["nonsense"])).unwrap_err();
    assert_eq!(err.message(), String::from("command <nonsense> not found"));
}

#[test]
fn exec_error_messages() {
    assert_eq!(
        ExecError::HomeUnavailable.message(),
        String::from("cannot resolve the home directory")
    );
    assert_eq!(
        ExecError::MvDestinationNotDirectory(String::from("d")).message(),
        String::from("cannot move multiple files: destination 'd' is not a directory")
    );
    assert_eq!(
        ExecError::CannotStat(String::from("gone")).message(),
        String::from("cannot stat 'gone': No such file or directory")
    );
    assert_eq!(
        ExecError::CannotMove {
            source: String::from("a"),
            dest: String::from("d"),
            cause: String::from("busy"),
        }
        .message(),
        String::from("cannot move 'a' to 'd': busy")
    );
    assert_eq!(
        ExecError::CopyFailed(String::from("short write")).message(),
        String::from("short write")
    );
    assert_eq!(
        ExecError::DestinationMissing(String::from("gone")).message(),
        String::from("gone")
    );
    assert_eq!(
        ExecError::InvalidSourcePath.message(),
        String::from("Invalid source path")
    );
    assert_eq!(
        ExecError::CreateDirFailed {
            path: String::from("/x"),
            cause: String::from("denied"),
        }
        .message(),
        String::from("failed to create directory '/x': denied")
    );
    assert_eq!(
        ExecError::ReadDirFailed {
            path: String::from("/x"),
            cause: String::from("denied"),
        }
        .message(),
        String::from("failed to read directory '/x': denied")
    );
    assert_eq!(
        ExecError::CannotAccess {
            path: String::from("nope"),
            cause: String::from("No such file or directory"),
        }
        .message(),
        String::from("cannot access 'nope': No such file or directory")
    );
}
