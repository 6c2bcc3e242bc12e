//! The command parser: a pure function from the normalizer's tokens to a
//! typed command or a descriptive parse error.
//!
//! Dispatch goes by the ASCII-lowercased first token. Each command checks
//! its own arity and flags. `ls` accumulates the flag characters `a`, `F`
//! and `l` from any number of `-`-prefixed operands and rejects any other
//! flag character. `rm` accepts exactly `-r` as its only option. `cp` and
//! `mv` take any number of sources followed by one destination.

use vstd::prelude::*;
use crate::text::spec_lower;
use crate::text::spec_join_spaces;
use crate::text::to_lower;
use crate::text::str_eq;
use crate::text::join_spaces;
use crate::text::str_to_chars;
use crate::text::push_char;

verus! {

/// A parsed command with its validated arguments.
#[derive(Debug, Clone, PartialEq)]
pub enum Command {
    Echo(String),
    Cd(String),
    Ls(Ls),
    Pwd,
    Cat(Vec<String>),
    Cp(Vec<String>),
    Rm(Rm),
    Mv(Vec<String>),
    Mkdir(Vec<String>),
    Exit,
}

/// Arguments of a directory listing: the accumulated flags and the
/// requested paths (`.` when none was given).
#[derive(Debug, Clone, PartialEq)]
pub struct Ls {
    pub is_all: bool,
    pub is_classify: bool,
    pub is_listing: bool,
    pub dirs: Vec<String>,
}

/// Arguments of a removal: recursive or not, and the paths.
#[derive(Debug, Clone, PartialEq)]
pub struct Rm {
    pub is_dir: bool,
    pub dirs: Vec<String>,
}

/// Why a token sequence is not a command.
#[derive(Debug, Clone, PartialEq)]
pub enum ParseError {
    PwdTooManyArgs,
    CdTooManyArgs,
    LsInvalidOption(char),
    EchoMissingArg,
    CatMissingArg,
    CpMissingArgs,
    RmMissingArg,
    RmMissingPath,
    RmInvalidOption(String),
    MvMissingArgs,
    MkdirMissingArg,
    UnknownCommand(String),
}

/// Mathematical model of a parsed command.
pub ghost enum SpecCommand {
    Echo(Seq<char>),
    Cd(Seq<char>),
    Ls { is_all: bool, is_classify: bool, is_listing: bool, dirs: Seq<Seq<char>> },
    Pwd,
    Cat(Seq<Seq<char>>),
    Cp(Seq<Seq<char>>),
    Rm { is_dir: bool, dirs: Seq<Seq<char>> },
    Mv(Seq<Seq<char>>),
    Mkdir(Seq<Seq<char>>),
    Exit,
}

/// Mathematical model of a parse error.
pub ghost enum SpecParseError {
    PwdTooManyArgs,
    CdTooManyArgs,
    LsInvalidOption(char),
    EchoMissingArg,
    CatMissingArg,
    CpMissingArgs,
    RmMissingArg,
    RmMissingPath,
    RmInvalidOption(Seq<char>),
    MvMissingArgs,
    MkdirMissingArg,
    UnknownCommand(Seq<char>),
}

impl View for Ls {
    type V = SpecCommand;

    open spec fn view(&self) -> SpecCommand {
        SpecCommand::Ls {
            is_all: self.is_all,
            is_classify: self.is_classify,
            is_listing: self.is_listing,
            dirs: self.dirs@.map_values(|t: String| t@),
        }
    }
}

impl View for Rm {
    type V = SpecCommand;

    open spec fn view(&self) -> SpecCommand {
        SpecCommand::Rm { is_dir: self.is_dir, dirs: self.dirs@.map_values(|t: String| t@) }
    }
}

impl View for Command {
    type V = SpecCommand;

    open spec fn view(&self) -> SpecCommand {
        match self {
            Command::Echo(s) => SpecCommand::Echo(s@),
            Command::Cd(s) => SpecCommand::Cd(s@),
            Command::Ls(ls) => ls@,
            Command::Pwd => SpecCommand::Pwd,
            Command::Cat(v) => SpecCommand::Cat(v@.map_values(|t: String| t@)),
            Command::Cp(v) => SpecCommand::Cp(v@.map_values(|t: String| t@)),
            Command::Rm(rm) => rm@,
            Command::Mv(v) => SpecCommand::Mv(v@.map_values(|t: String| t@)),
            Command::Mkdir(v) => SpecCommand::Mkdir(v@.map_values(|t: String| t@)),
            Command::Exit => SpecCommand::Exit,
        }
    }
}

impl View for ParseError {
    type V = SpecParseError;

    open spec fn view(&self) -> SpecParseError {
        match self {
            ParseError::PwdTooManyArgs => SpecParseError::PwdTooManyArgs,
            ParseError::CdTooManyArgs => SpecParseError::CdTooManyArgs,
            ParseError::LsInvalidOption(c) => SpecParseError::LsInvalidOption(*c),
            ParseError::EchoMissingArg => SpecParseError::EchoMissingArg,
            ParseError::CatMissingArg => SpecParseError::CatMissingArg,
            ParseError::CpMissingArgs => SpecParseError::CpMissingArgs,
            ParseError::RmMissingArg => SpecParseError::RmMissingArg,
            ParseError::RmMissingPath => SpecParseError::RmMissingPath,
            ParseError::RmInvalidOption(s) => SpecParseError::RmInvalidOption(s@),
            ParseError::MvMissingArgs => SpecParseError::MvMissingArgs,
            ParseError::MkdirMissingArg => SpecParseError::MkdirMissingArg,
            ParseError::UnknownCommand(s) => SpecParseError::UnknownCommand(s@),
        }
    }
}

/// Folds the flag characters of one `-`-prefixed `ls` operand, from
/// position `j`, into the accumulated flags; the first unknown character is
/// the error.
pub open spec fn spec_ls_flags(t: Seq<char>, j: int, all: bool, classify: bool, listing: bool) -> Result<
    (bool, bool, bool),
    char,
>
    decreases t.len() - j,
{
    if j < 0 || j >= t.len() {
        Ok((all, classify, listing))
    } else if t[j] == 'a' {
        spec_ls_flags(t, j + 1, true, classify, listing)
    } else if t[j] == 'F' {
        spec_ls_flags(t, j + 1, all, true, listing)
    } else if t[j] == 'l' {
        spec_ls_flags(t, j + 1, all, classify, true)
    } else {
        Err(t[j])
    }
}

/// Walks the `ls` operands from position `i`: `-`-prefixed tokens add
/// flags, every other token is a path.
pub open spec fn spec_ls_args(
    toks: Seq<Seq<char>>,
    i: int,
    all: bool,
    classify: bool,
    listing: bool,
    dirs: Seq<Seq<char>>,
) -> Result<(bool, bool, bool, Seq<Seq<char>>), char>
    decreases toks.len() - i,
{
    if i < 0 || i >= toks.len() {
        Ok((all, classify, listing, dirs))
    } else {
        let t = toks[i];
        if t.len() > 0 && t[0] == '-' {
            match spec_ls_flags(t, 1, all, classify, listing) {
                Ok(f) => spec_ls_args(toks, i + 1, f.0, f.1, f.2, dirs),
                Err(c) => Err(c),
            }
        } else {
            spec_ls_args(toks, i + 1, all, classify, listing, dirs.push(t))
        }
    }
}

/// What `tokens` parse to: the command, or the error, for every possible
/// token sequence.
pub open spec fn spec_parse(toks: Seq<Seq<char>>) -> Result<SpecCommand, SpecParseError> {
    if toks.len() == 0 {
        Err(SpecParseError::UnknownCommand(Seq::empty()))
    } else {
        let head = spec_lower(toks[0]);
        if head == "exit"@ {
            Ok(SpecCommand::Exit)
        } else if head == "pwd"@ {
            if toks.len() < 2 {
                Ok(SpecCommand::Pwd)
            } else {
                Err(SpecParseError::PwdTooManyArgs)
            }
        } else if head == "cd"@ {
            if toks.len() > 2 {
                Err(SpecParseError::CdTooManyArgs)
            } else if toks.len() == 2 {
                Ok(SpecCommand::Cd(toks[1]))
            } else {
                Ok(SpecCommand::Cd(Seq::empty()))
            }
        } else if head == "ls"@ {
            match spec_ls_args(toks, 1, false, false, false, Seq::empty()) {
                Ok(f) => Ok(
                    SpecCommand::Ls {
                        is_all: f.0,
                        is_classify: f.1,
                        is_listing: f.2,
                        dirs: if f.3.len() == 0 {
                            seq!["."@]
                        } else {
                            f.3
                        },
                    },
                ),
                Err(c) => Err(SpecParseError::LsInvalidOption(c)),
            }
        } else if head == "echo"@ {
            if toks.len() < 2 {
                Err(SpecParseError::EchoMissingArg)
            } else {
                Ok(SpecCommand::Echo(spec_join_spaces(toks.subrange(1, toks.len() as int))))
            }
        } else if head == "cat"@ {
            if toks.len() < 2 {
                Err(SpecParseError::CatMissingArg)
            } else {
                Ok(SpecCommand::Cat(toks.subrange(1, toks.len() as int)))
            }
        } else if head == "cp"@ {
            if toks.len() < 3 {
                Err(SpecParseError::CpMissingArgs)
            } else {
                Ok(SpecCommand::Cp(toks.subrange(1, toks.len() as int)))
            }
        } else if head == "rm"@ {
            if toks.len() < 2 {
                Err(SpecParseError::RmMissingArg)
            } else if toks[1] == "-r"@ {
                if toks.len() > 2 {
                    Ok(SpecCommand::Rm { is_dir: true, dirs: toks.subrange(2, toks.len() as int) })
                } else {
                    Err(SpecParseError::RmMissingPath)
                }
            } else if toks[1].len() > 0 && toks[1][0] == '-' {
                Err(SpecParseError::RmInvalidOption(toks[1]))
            } else {
                Ok(SpecCommand::Rm { is_dir: false, dirs: toks.subrange(1, toks.len() as int) })
            }
        } else if head == "mv"@ {
            if toks.len() < 3 {
                Err(SpecParseError::MvMissingArgs)
            } else {
                Ok(SpecCommand::Mv(toks.subrange(1, toks.len() as int)))
            }
        } else if head == "mkdir"@ {
            if toks.len() < 2 {
                Err(SpecParseError::MkdirMissingArg)
            } else {
                Ok(SpecCommand::Mkdir(toks.subrange(1, toks.len() as int)))
            }
        } else {
            Err(SpecParseError::UnknownCommand(head))
        }
    }
}

impl Ls {
    /// A listing of nothing, with every flag off.
    pub fn new() -> (r: Self)
        ensures
            r.is_all == false,
            r.is_classify == false,
            r.is_listing == false,
            r.dirs@.len() == 0,
    {
        Self { is_all: false, is_classify: false, is_listing: false, dirs: Vec::new() }
    }
}

impl Rm {
    /// A removal of `dirs`, recursive when `is_dir` is set.
    pub fn from(is_dir: bool, dirs: Vec<String>) -> (r: Self)
        ensures
            r.is_dir == is_dir,
            r.dirs == dirs,
    {
        Self { is_dir, dirs }
    }
}

/// Clones `tokens[from..]`.
fn tail_strings(tokens: &Vec<String>, from: usize) -> (r: Vec<String>)
    requires
        from <= tokens@.len(),
    ensures
        r@.map_values(|t: String| t@) == tokens@.map_values(|t: String| t@).subrange(
            from as int,
            tokens@.len() as int,
        ),
{
    let mut r: Vec<String> = Vec::new();
    let mut i: usize = from;
    assert(r@.map_values(|t: String| t@) =~= tokens@.map_values(|t: String| t@).subrange(
        from as int,
        i as int,
    ));
    while i < tokens.len()
        invariant
            from <= i <= tokens@.len(),
            r@.map_values(|t: String| t@) == tokens@.map_values(|t: String| t@).subrange(
                from as int,
                i as int,
            ),
        decreases tokens@.len() - i,
    {
        let ghost rold = r@;
        r.push(tokens[i].clone());
        proof {
            broadcast use vstd::prelude::Seq::lemma_push_map_commute;

            assert(r@ == rold.push(tokens@[i as int]));
            assert(tokens@.map_values(|t: String| t@).subrange(from as int, i + 1) =~= tokens@
                .map_values(|t: String| t@).subrange(from as int, i as int).push(
                tokens@[i as int]@,
            ));
            assert(r@.map_values(|t: String| t@) =~= tokens@.map_values(|t: String| t@).subrange(
                from as int,
                i + 1,
            ));
        }
        i = i + 1;
    }
    r
}

/// Parses the `ls` operands in `tokens[1..]`.
fn parse_ls(tokens: &Vec<String>) -> (r: Result<Ls, ParseError>)
    requires
        tokens@.len() >= 1,
    ensures
        ({
            let toks = tokens@.map_values(|t: String| t@);
            match spec_ls_args(toks, 1, false, false, false, Seq::empty()) {
                Ok(f) => r matches Ok(ls) && ls@ == (SpecCommand::Ls {
                    is_all: f.0,
                    is_classify: f.1,
                    is_listing: f.2,
                    dirs: if f.3.len() == 0 {
                        seq!["."@]
                    } else {
                        f.3
                    },
                }),
                Err(c) => r == Err::<Ls, ParseError>(ParseError::LsInvalidOption(c)),
            }
        }),
{
    let ghost toks = tokens@.map_values(|t: String| t@);
    let mut result = Ls::new();
    let mut i: usize = 1;
    proof {
        assert(result.dirs@.map_values(|t: String| t@) =~= Seq::<Seq<char>>::empty());
    }
    while i < tokens.len()
        invariant
            1 <= i <= tokens@.len(),
            toks == tokens@.map_values(|t: String| t@),
            spec_ls_args(toks, 1, false, false, false, Seq::empty()) == spec_ls_args(
                toks,
                i as int,
                result.is_all,
                result.is_classify,
                result.is_listing,
                result.dirs@.map_values(|t: String| t@),
            ),
        decreases tokens@.len() - i,
    {
        let ghost all0 = result.is_all;
        let ghost classify0 = result.is_classify;
        let ghost listing0 = result.is_listing;
        let ghost dirs0 = result.dirs@.map_values(|t: String| t@);
        let tchars = str_to_chars(tokens[i].as_str());
        proof {
            assert(toks[i as int] == tokens@[i as int]@);
        }
        if tchars.len() > 0 && tchars[0] == '-' {
            let mut j: usize = 1;
            while j < tchars.len()
                invariant
                    1 <= j <= tchars@.len(),
                    1 <= i < toks.len(),
                    toks == tokens@.map_values(|t: String| t@),
                    tchars@ == toks[i as int],
                    tchars@.len() > 0,
                    tchars@[0] == '-',
                    result.dirs@.map_values(|t: String| t@) == dirs0,
                    spec_ls_args(toks, 1, false, false, false, Seq::empty()) == spec_ls_args(
                        toks,
                        i as int,
                        all0,
                        classify0,
                        listing0,
                        dirs0,
                    ),
                    spec_ls_flags(toks[i as int], 1, all0, classify0, listing0) == spec_ls_flags(
                        toks[i as int],
                        j as int,
                        result.is_all,
                        result.is_classify,
                        result.is_listing,
                    ),
                decreases tchars@.len() - j,
            {
                let c = tchars[j];
                if c == 'a' {
                    result.is_all = true;
                } else if c == 'F' {
                    result.is_classify = true;
                } else if c == 'l' {
                    result.is_listing = true;
                } else {
                    proof {
                        assert(spec_ls_flags(
                            toks[i as int],
                            j as int,
                            result.is_all,
                            result.is_classify,
                            result.is_listing,
                        ) == Err::<(bool, bool, bool), char>(c));
                        assert(spec_ls_args(toks, i as int, all0, classify0, listing0, dirs0)
                            == Err::<(bool, bool, bool, Seq<Seq<char>>), char>(c));
                    }
                    return Err(ParseError::LsInvalidOption(c));
                }
                j = j + 1;
            }
            proof {
                assert(spec_ls_flags(
                    toks[i as int],
                    tchars@.len() as int,
                    result.is_all,
                    result.is_classify,
                    result.is_listing,
                ) == Ok::<(bool, bool, bool), char>((
                    result.is_all,
                    result.is_classify,
                    result.is_listing,
                )));
                assert(spec_ls_args(toks, i as int, all0, classify0, listing0, dirs0)
                    == spec_ls_args(
                    toks,
                    i + 1,
                    result.is_all,
                    result.is_classify,
                    result.is_listing,
                    dirs0,
                ));
            }
        } else {
            let ghost dvold = result.dirs@;
            result.dirs.push(tokens[i].clone());
            proof {
                broadcast use vstd::prelude::Seq::lemma_push_map_commute;

                assert(result.dirs@ == dvold.push(tokens@[i as int]));
                assert(result.dirs@.map_values(|t: String| t@) =~= dirs0.push(toks[i as int]));
                assert(spec_ls_args(toks, i as int, all0, classify0, listing0, dirs0)
                    == spec_ls_args(
                    toks,
                    i + 1,
                    all0,
                    classify0,
                    listing0,
                    dirs0.push(toks[i as int]),
                ));
            }
        }
        i = i + 1;
    }
    if result.dirs.len() == 0 {
        let ghost dvold = result.dirs@;
        let dot = String::from_str(".");
        result.dirs.push(dot);
        proof {
            assert(result.dirs@.map_values(|t: String| t@) =~= seq!["."@]);
        }
    }
    Ok(result)
}

impl Command {
    /// Parses a normalized token sequence into a command, or reports why it
    /// is none.
    pub fn parse(tokens: &Vec<String>) -> (r: Result<Command, ParseError>)
        ensures
            ({
                let sr = spec_parse(tokens@.map_values(|t: String| t@));
                match r {
                    Ok(c) => sr == Ok::<SpecCommand, SpecParseError>(c@),
                    Err(e) => sr == Err::<SpecCommand, SpecParseError>(e@),
                }
            }),
    {
        let ghost toks = tokens@.map_values(|t: String| t@);
        if tokens.len() == 0 {
            let name = String::new();
            return Err(ParseError::UnknownCommand(name));
        }
        let head = to_lower(tokens[0].as_str());
        if str_eq(head.as_str(), "exit") {
            Ok(Command::Exit)
        } else if str_eq(head.as_str(), "pwd") {
            if tokens.len() < 2 {
                Ok(Command::Pwd)
            } else {
                Err(ParseError::PwdTooManyArgs)
            }
        } else if str_eq(head.as_str(), "cd") {
            if tokens.len() > 2 {
                Err(ParseError::CdTooManyArgs)
            } else if tokens.len() == 2 {
                Ok(Command::Cd(tokens[1].clone()))
            } else {
                Ok(Command::Cd(String::new()))
            }
        } else if str_eq(head.as_str(), "ls") {
            match parse_ls(tokens) {
                Ok(ls) => Ok(Command::Ls(ls)),
                Err(e) => Err(e),
            }
        } else if str_eq(head.as_str(), "echo") {
            if tokens.len() < 2 {
                Err(ParseError::EchoMissingArg)
            } else {
                Ok(Command::Echo(join_spaces(tokens, 1)))
            }
        } else if str_eq(head.as_str(), "cat") {
            if tokens.len() < 2 {
                Err(ParseError::CatMissingArg)
            } else {
                Ok(Command::Cat(tail_strings(tokens, 1)))
            }
        } else if str_eq(head.as_str(), "cp") {
            if tokens.len() < 3 {
                Err(ParseError::CpMissingArgs)
            } else {
                Ok(Command::Cp(tail_strings(tokens, 1)))
            }
        } else if str_eq(head.as_str(), "rm") {
            if tokens.len() < 2 {
                Err(ParseError::RmMissingArg)
            } else if str_eq(tokens[1].as_str(), "-r") {
                if tokens.len() > 2 {
                    Ok(Command::Rm(Rm::from(true, tail_strings(tokens, 2))))
                } else {
                    Err(ParseError::RmMissingPath)
                }
            } else {
                let second = str_to_chars(tokens[1].as_str());
                if second.len() > 0 && second[0] == '-' {
                    Err(ParseError::RmInvalidOption(tokens[1].clone()))
                } else {
                    Ok(Command::Rm(Rm::from(false, tail_strings(tokens, 1))))
                }
            }
        } else if str_eq(head.as_str(), "mv") {
            if tokens.len() < 3 {
                Err(ParseError::MvMissingArgs)
            } else {
                Ok(Command::Mv(tail_strings(tokens, 1)))
            }
        } else if str_eq(head.as_str(), "mkdir") {
            if tokens.len() < 2 {
                Err(ParseError::MkdirMissingArg)
            } else {
                Ok(Command::Mkdir(tail_strings(tokens, 1)))
            }
        } else {
            Err(ParseError::UnknownCommand(head))
        }
    }
}


/// The rendered text of a parse error.
pub open spec fn spec_parse_error_message(e: SpecParseError) -> Seq<char> {
    match e {
        SpecParseError::PwdTooManyArgs => "too many arguments/options"@,
        SpecParseError::CdTooManyArgs => "cd requires one argument"@,
        SpecParseError::LsInvalidOption(c) => "invalid option -"@.push(c),
        SpecParseError::EchoMissingArg => "echo requires an argument"@,
        SpecParseError::CatMissingArg => "cat requires an argument"@,
        SpecParseError::CpMissingArgs => "cp requires at least two arguments: source & target"@,
        SpecParseError::RmMissingArg => "rm requires at least one argument"@,
        SpecParseError::RmMissingPath => "missing a path"@,
        SpecParseError::RmInvalidOption(s) => "invalid option <"@ + s
            + ">, expected options: -r"@,
        SpecParseError::MvMissingArgs =>
            "mv requires at least two arguments: source(s) and destination"@,
        SpecParseError::MkdirMissingArg => "mkdir requires at least one argument"@,
        SpecParseError::UnknownCommand(s) => "command <"@ + s + "> not found"@,
    }
}

impl ParseError {
    /// Renders this parse error as the text the prompt prints.
    pub fn message(&self) -> (r: String)
        ensures
            r@ == spec_parse_error_message(self@),
    {
        match self {
            ParseError::PwdTooManyArgs => String::from_str("too many arguments/options"),
            ParseError::CdTooManyArgs => String::from_str("cd requires one argument"),
            ParseError::LsInvalidOption(c) => {
                let mut m = String::from_str("invalid option -");
                push_char(&mut m, *c);
                m
            },
            ParseError::EchoMissingArg => String::from_str("echo requires an argument"),
            ParseError::CatMissingArg => String::from_str("cat requires an argument"),
            ParseError::CpMissingArgs => String::from_str(
                "cp requires at least two arguments: source & target",
            ),
            ParseError::RmMissingArg => String::from_str("rm requires at least one argument"),
            ParseError::RmMissingPath => String::from_str("missing a path"),
            ParseError::RmInvalidOption(s) => {
                let mut m = String::from_str("invalid option <");
                m.append(s.as_str());
                m.append(">, expected options: -r");
                m
            },
            ParseError::MvMissingArgs => String::from_str(
                "mv requires at least two arguments: source(s) and destination",
            ),
            ParseError::MkdirMissingArg => String::from_str("mkdir requires at least one argument"),
            ParseError::UnknownCommand(s) => {
                let mut m = String::from_str("command <");
                m.append(s.as_str());
                m.append("> not found");
                m
            },
        }
    }
}

} // verus!
