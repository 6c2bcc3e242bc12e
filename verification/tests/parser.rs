use vshell::command::Command;
use vshell::command::Ls;
use vshell::command::ParseError;
use vshell::command::Rm;

fn toks(words: &[&str]) -> Vec<String> {
    words.iter().map(|w| String::from(*w)).collect()
}

#[test]
fn parse_exit() {
    assert_eq!(Command::parse(&toks(&["exit"])).unwrap(), Command::Exit);
}

#[test]
fn parse_is_case_insensitive() {
    assert_eq!(Command::parse(&toks(&["EXIT"])).unwrap(), Command::Exit);
    assert_eq!(Command::parse(&toks(&["Pwd"])).unwrap(), Command::Pwd);
}

#[test]
fn parse_pwd() {
    assert_eq!(Command::parse(&toks(&["pwd"])).unwrap(), Command::Pwd);
}

#[test]
fn parse_pwd_rejects_arguments() {
    assert_eq!(
        Command::parse(&toks(&["pwd", "x"])).unwrap_err(),
        ParseError::PwdTooManyArgs
    );
}

#[test]
fn parse_cd_with_path() {
    assert_eq!(
        Command::parse(&toks(&["cd", "dir"])).unwrap(),
        Command::Cd(String::from("dir"))
    );
}

#[test]
fn parse_cd_without_path_means_home() {
    assert_eq!(
        Command::parse(&toks(&["cd"])).unwrap(),
        Command::Cd(String::new())
    );
}

#[test]
fn parse_cd_rejects_two_arguments() {
    assert_eq!(
        Command::parse(&toks(&["cd", "a", "b"])).unwrap_err(),
        ParseError::CdTooManyArgs
    );
}

#[test]
fn parse_ls_defaults_to_dot() {
    let c = Command::parse(&toks(&["ls"])).unwrap();
    assert_eq!(
        c,
        Command::Ls(Ls {
            is_all: false,
            is_classify: false,
            is_listing: false,
            dirs: vec![String::from(".")],
        })
    );
}

#[test]
fn parse_ls_accumulates_flags_and_paths() {
    let c = Command::parse(&toks(&["ls", "-al", "-F", "x", "y"])).unwrap();
    assert_eq!(
        c,
        Command::Ls(Ls {
            is_all: true,
            is_classify: true,
            is_listing: true,
            dirs: vec![String::from("x"), String::from("y")],
        })
    );
}

#[test]
fn parse_ls_rejects_unknown_flag() {
    assert_eq!(
        Command::parse(&toks(&["ls", "-az"])).unwrap_err(),
        ParseError::LsInvalidOption('z')
    );
}

#[test]
fn parse_echo_joins_with_single_spaces() {
    assert_eq!(
        Command::parse(&toks(&["echo", "a", "b c"])).unwrap(),
        Command::Echo(String::from("a b c"))
    );
}

#[test]
fn parse_echo_needs_an_argument() {
    assert_eq!(
        Command::parse(&toks(&["echo"])).unwrap_err(),
        ParseError::EchoMissingArg
    );
}

#[test]
fn parse_cat_collects_paths() {
    assert_eq!(
        Command::parse(&toks(&["cat", "a", "b"])).unwrap(),
        Command::Cat(vec![String::from("a"), String::from("b")])
    );
}

#[test]
fn parse_cat_needs_an_argument() {
    assert_eq!(
        Command::parse(&toks(&["cat"])).unwrap_err(),
        ParseError::CatMissingArg
    );
}

#[test]
fn parse_cp_takes_sources_and_destination() {
    assert_eq!(
        Command::parse(&toks(&["cp", "a", "b", "d"])).unwrap(),
        Command::Cp(vec![String::from("a"), String::from("b"), String::from("d")])
    );
}

#[test]
fn parse_cp_needs_two_arguments() {
    assert_eq!(
        Command::parse(&toks(&["cp", "a"])).unwrap_err(),
        ParseError::CpMissingArgs
    );
}

#[test]
fn parse_rm_plain() {
    assert_eq!(
        Command::parse(&toks(&["rm", "a", "b"])).unwrap(),
        Command::Rm(Rm {
            is_dir: false,
            dirs: vec![String::from("a"), String::from("b")],
        })
    );
}

#[test]
fn parse_rm_recursive() {
    assert_eq!(
        Command::parse(&toks(&["rm", "-r", "d"])).unwrap(),
        Command::Rm(Rm {
            is_dir: true,
            dirs: vec![String::from("d")],
        })
    );
}

#[test]
fn parse_rm_needs_an_argument() {
    assert_eq!(
        Command::parse(&toks(&["rm"])).unwrap_err(),
        ParseError::RmMissingArg
    );
}

#[test]
fn parse_rm_recursive_needs_a_path() {
    assert_eq!(
        Command::parse(&toks(&["rm", "-r"])).unwrap_err(),
        ParseError::RmMissingPath
    );
}

#[test]
fn parse_rm_rejects_other_options() {
    assert_eq!(
        Command::parse(&toks(&["rm", "-x", "a"])).unwrap_err(),
        ParseError::RmInvalidOption(String::from("-x"))
    );
}

#[test]
fn parse_mv_takes_sources_and_destination() {
    assert_eq!(
        Command::parse(&toks(&["mv", "a", "d"])).unwrap(),
        Command::Mv(vec![String::from("a"), String::from("d")])
    );
}

#[test]
fn parse_mv_needs_two_arguments() {
    assert_eq!(
        Command::parse(&toks(&["mv", "a"])).unwrap_err(),
        ParseError::MvMissingArgs
    );
}

#[test]
fn parse_mkdir_collects_paths() {
    assert_eq!(
        Command::parse(&toks(&["mkdir", "a", "b"])).unwrap(),
        Command::Mkdir(vec![String::from("a"), String::from("b")])
    );
}

#[test]
fn parse_mkdir_needs_an_argument() {
    assert_eq!(
        Command::parse(&toks(&["mkdir"])).unwrap_err(),
        ParseError::MkdirMissingArg
    );
}

#[test]
fn parse_unknown_command() {
    assert_eq!(
        Command::parse(&toks(&["frobnicate"])).unwrap_err(),
        ParseError::UnknownCommand(String::from("frobnicate"))
    );
}

#[test]
fn parse_empty_token_list() {
    assert_eq!(
        Command::parse(&Vec::new()).unwrap_err(),
        ParseError::UnknownCommand(String::new())
    );
}
