//! The executor's decision logic: path resolution against the tracked
//! working directory, per-command planning, and the folding of per-item
//! outcomes into the text or error a caller prints.
//!
//! Filesystem calls themselves happen outside the library. Each command is
//! split into pure parts: a *plan* computed from the command's arguments
//! and, where needed, the destination's observed state; and a *collect*
//! step that folds the outcome of every planned action into the final
//! result. The plans and folds are fully specified here.

use vstd::prelude::*;
use crate::text::str_to_chars;
use crate::text::chars_to_string;
use crate::text::str_contains;
use crate::text::spec_contains;
use crate::text::str_eq;

verus! {

/// What a path stat showed: nothing there (with the reported cause), a
/// regular file, a directory, or something else.
#[derive(Debug, Clone, PartialEq)]
pub enum PathState {
    Missing(String),
    File,
    Dir,
    Other,
}

/// An execution failure, with the path and cause it is about.
#[derive(Debug, Clone, PartialEq)]
pub enum ExecError {
    /// `cd` with no operand and no home directory to fall back to.
    HomeUnavailable,
    /// `cd` to a path that is missing or not a directory.
    NoSuchPath(String),
    /// `mkdir` failure on one path.
    CannotCreateDir { path: String, cause: String },
    /// `rm` failure on one path.
    CannotRemove { path: String, cause: String },
    /// `cp` of several sources onto an existing plain file.
    DestinationNotDirectory,
    /// `cp` of several sources to a destination that could not be examined.
    DestinationMissing(String),
    /// `cp` where a source resolves to the destination itself.
    SamePath(String),
    /// `cp` or `mv` of a source with no base name.
    InvalidSourcePath,
    /// `cp` aborted by its first copy failure.
    CopyFailed(String),
    /// `mv` of several sources onto something that is no directory.
    MvDestinationNotDirectory(String),
    /// `mv` of a source that cannot be examined.
    CannotStat(String),
    /// `mv` failure on one source.
    CannotMove { source: String, dest: String, cause: String },
    /// Cross-device fallback: the byte copy of one file failed.
    CopyFileFailed { source: String, dest: String, cause: String },
    /// Cross-device fallback: removing the copied source file failed.
    RemoveSourceFileFailed { source: String, cause: String },
    /// Cross-device fallback: removing the copied source tree failed.
    RemoveSourceDirFailed { source: String, cause: String },
    /// Cross-device fallback: creating a destination directory failed.
    CreateDirFailed { path: String, cause: String },
    /// Cross-device fallback: reading a source directory failed.
    ReadDirFailed { path: String, cause: String },
    /// `ls` of a path that cannot be examined.
    CannotAccess { path: String, cause: String },
}

/// The rendered text of an execution failure.
pub open spec fn spec_message(e: ExecError) -> Seq<char> {
    match e {
        ExecError::HomeUnavailable => "cannot resolve the home directory"@,
        ExecError::NoSuchPath(p) => "no such file or directory: "@ + p@,
        ExecError::CannotCreateDir { path, cause } => "cannot create directory '"@ + path@ + "': "@
            + cause@,
        ExecError::CannotRemove { path, cause } => "cannot remove '"@ + path@ + "': "@ + cause@,
        ExecError::DestinationNotDirectory => "The destination should be a directory"@,
        ExecError::DestinationMissing(cause) => cause@,
        ExecError::SamePath(p) => "The \""@ + p@
            + "\" can't be the source and the destination at the same time"@,
        ExecError::InvalidSourcePath => "Invalid source path"@,
        ExecError::CopyFailed(cause) => cause@,
        ExecError::MvDestinationNotDirectory(d) => "cannot move multiple files: destination '"@
            + d@ + "' is not a directory"@,
        ExecError::CannotStat(s) => "cannot stat '"@ + s@ + "': No such file or directory"@,
        ExecError::CannotMove { source, dest, cause } => "cannot move '"@ + source@ + "' to '"@
            + dest@ + "': "@ + cause@,
        ExecError::CopyFileFailed { source, dest, cause } => "failed to copy file '"@ + source@
            + "' to '"@ + dest@ + "': "@ + cause@,
        ExecError::RemoveSourceFileFailed { source, cause } => "failed to remove source file '"@
            + source@ + "': "@ + cause@,
        ExecError::RemoveSourceDirFailed { source, cause } =>
            "failed to remove source directory '"@ + source@ + "': "@ + cause@,
        ExecError::CreateDirFailed { path, cause } => "failed to create directory '"@ + path@
            + "': "@ + cause@,
        ExecError::ReadDirFailed { path, cause } => "failed to read directory '"@ + path@ + "': "@
            + cause@,
        ExecError::CannotAccess { path, cause } => "cannot access '"@ + path@ + "': "@ + cause@,
    }
}

impl ExecError {
    /// Renders this failure as the text the prompt prints.
    pub fn message(&self) -> (r: String)
        ensures
            r@ == spec_message(*self),
    {
        match self {
            ExecError::HomeUnavailable => String::from_str("cannot resolve the home directory"),
            ExecError::NoSuchPath(p) => {
                let mut m = String::from_str("no such file or directory: ");
                m.append(p.as_str());
                m
            },
            ExecError::CannotCreateDir { path, cause } => {
                let mut m = String::from_str("cannot create directory '");
                m.append(path.as_str());
                m.append("': ");
                m.append(cause.as_str());
                m
            },
            ExecError::CannotRemove { path, cause } => {
                let mut m = String::from_str("cannot remove '");
                m.append(path.as_str());
                m.append("': ");
                m.append(cause.as_str());
                m
            },
            ExecError::DestinationNotDirectory => String::from_str(
                "The destination should be a directory",
            ),
            ExecError::DestinationMissing(cause) => cause.clone(),
            ExecError::SamePath(p) => {
                let mut m = String::from_str("The \"");
                m.append(p.as_str());
                m.append("\" can't be the source and the destination at the same time");
                m
            },
            ExecError::InvalidSourcePath => String::from_str("Invalid source path"),
            ExecError::CopyFailed(cause) => cause.clone(),
            ExecError::MvDestinationNotDirectory(d) => {
                let mut m = String::from_str("cannot move multiple files: destination '");
                m.append(d.as_str());
                m.append("' is not a directory");
                m
            },
            ExecError::CannotStat(s) => {
                let mut m = String::from_str("cannot stat '");
                m.append(s.as_str());
                m.append("': No such file or directory");
                m
            },
            ExecError::CannotMove { source, dest, cause } => {
                let mut m = String::from_str("cannot move '");
                m.append(source.as_str());
                m.append("' to '");
                m.append(dest.as_str());
                m.append("': ");
                m.append(cause.as_str());
                m
            },
            ExecError::CopyFileFailed { source, dest, cause } => {
                let mut m = String::from_str("failed to copy file '");
                m.append(source.as_str());
                m.append("' to '");
                m.append(dest.as_str());
                m.append("': ");
                m.append(cause.as_str());
                m
            },
            ExecError::RemoveSourceFileFailed { source, cause } => {
                let mut m = String::from_str("failed to remove source file '");
                m.append(source.as_str());
                m.append("': ");
                m.append(cause.as_str());
                m
            },
            ExecError::RemoveSourceDirFailed { source, cause } => {
                let mut m = String::from_str("failed to remove source directory '");
                m.append(source.as_str());
                m.append("': ");
                m.append(cause.as_str());
                m
            },
            ExecError::CreateDirFailed { path, cause } => {
                let mut m = String::from_str("failed to create directory '");
                m.append(path.as_str());
                m.append("': ");
                m.append(cause.as_str());
                m
            },
            ExecError::ReadDirFailed { path, cause } => {
                let mut m = String::from_str("failed to read directory '");
                m.append(path.as_str());
                m.append("': ");
                m.append(cause.as_str());
                m
            },
            ExecError::CannotAccess { path, cause } => {
                let mut m = String::from_str("cannot access '");
                m.append(path.as_str());
                m.append("': ");
                m.append(cause.as_str());
                m
            },
        }
    }
}

/// `path` resolved against the working directory `cur`: a path that starts
/// with `/` stands alone, every other one is `cur`, a slash, and the path.
pub open spec fn spec_resolve(cur: Seq<char>, path: Seq<char>) -> Seq<char> {
    if path.len() > 0 && path[0] == '/' {
        path
    } else {
        cur + seq!['/'] + path
    }
}

/// `subfolder` joined onto `absolute_path`: an absolute subfolder stands
/// alone; otherwise the two are joined with exactly one slash between them.
pub open spec fn spec_join(base: Seq<char>, sub: Seq<char>) -> Seq<char> {
    if sub.len() > 0 && sub[0] == '/' {
        sub
    } else if base.len() > 0 && base[base.len() - 1] == '/' {
        base + sub
    } else {
        base + seq!['/'] + sub
    }
}

/// Joins `subfolder` onto `absolute_path` with a single slash.
pub fn join_path(absolute_path: &str, subfolder: &str) -> (r: String)
    ensures
        r@ == spec_join(absolute_path@, subfolder@),
{
    let sub_len = subfolder.unicode_len();
    if sub_len > 0 && subfolder.get_char(0) == '/' {
        return String::from_str(subfolder);
    }
    let base_len = absolute_path.unicode_len();
    let mut r = String::from_str(absolute_path);
    if !(base_len > 0 && absolute_path.get_char(base_len - 1) == '/') {
        r.append("/");
    }
    r.append(subfolder);
    proof {
        reveal_strlit("/");
        assert("/"@ =~= seq!['/']);
    }
    r
}

/// The base name of `path`: the part after the last slash, once trailing
/// slashes are stripped; none when that part is empty, `.` or `..`.
pub open spec fn spec_base_name(path: Seq<char>) -> Option<Seq<char>> {
    let stripped = spec_strip_trailing_slashes(path);
    let name = spec_after_last_slash(stripped);
    if name.len() == 0 || name == "."@ || name == ".."@ {
        None
    } else {
        Some(name)
    }
}

/// `s` with every trailing slash removed.
pub open spec fn spec_strip_trailing_slashes(s: Seq<char>) -> Seq<char>
    decreases s.len(),
{
    if s.len() > 0 && s[s.len() - 1] == '/' {
        spec_strip_trailing_slashes(s.drop_last())
    } else {
        s
    }
}

/// The suffix of `s` after its last slash (`s` itself when it has none).
pub open spec fn spec_after_last_slash(s: Seq<char>) -> Seq<char>
    decreases s.len(),
{
    if s.len() == 0 {
        s
    } else if s[s.len() - 1] == '/' {
        Seq::empty()
    } else {
        spec_after_last_slash(s.drop_last()).push(s[s.len() - 1])
    }
}

/// The base name of `path`, as `spec_base_name` gives it.
pub fn base_name(path: &str) -> (r: Option<String>)
    ensures
        match r {
            Some(name) => spec_base_name(path@) == Some(name@),
            None => spec_base_name(path@) is None,
        },
{
    let chars = str_to_chars(path);
    let mut end = chars.len();
    proof {
        assert(chars@.subrange(0, chars@.len() as int) =~= chars@);
    }
    while end > 0 && chars[end - 1] == '/'
        invariant
            chars@ == path@,
            end <= chars@.len(),
            spec_strip_trailing_slashes(path@) == spec_strip_trailing_slashes(chars@.subrange(
                0,
                end as int,
            )),
        decreases end,
    {
        proof {
            assert(chars@.subrange(0, end as int).drop_last() =~= chars@.subrange(0, end - 1));
        }
        end = end - 1;
    }
    proof {
        assert(spec_strip_trailing_slashes(chars@.subrange(0, end as int)) == chars@.subrange(
            0,
            end as int,
        ));
    }
    let mut start = end;
    proof {
        assert(spec_after_last_slash(chars@.subrange(0, end as int)) =~= spec_after_last_slash(
            chars@.subrange(0, end as int),
        ) + chars@.subrange(end as int, end as int));
    }
    while start > 0 && chars[start - 1] != '/'
        invariant
            chars@ == path@,
            start <= end <= chars@.len(),
            spec_after_last_slash(chars@.subrange(0, end as int)) == spec_after_last_slash(
                chars@.subrange(0, start as int),
            ) + chars@.subrange(start as int, end as int),
        decreases start,
    {
        proof {
            let pre = chars@.subrange(0, start as int);
            assert(pre.len() == start as int);
            assert(pre[start - 1] == chars@[start - 1]);
            assert(pre.drop_last() =~= chars@.subrange(0, start - 1));
            assert(spec_after_last_slash(pre) == spec_after_last_slash(chars@.subrange(
                0,
                start - 1,
            )).push(chars@[start - 1]));
            assert(spec_after_last_slash(chars@.subrange(0, start - 1)).push(chars@[start - 1])
                + chars@.subrange(start as int, end as int) =~= spec_after_last_slash(
                chars@.subrange(0, start - 1),
            ) + chars@.subrange(start - 1, end as int));
        }
        start = start - 1;
    }
    proof {
        if start == 0 {
            assert(chars@.subrange(0, 0int).len() == 0);
            assert(spec_after_last_slash(chars@.subrange(0, 0int)) + chars@.subrange(
                0int,
                end as int,
            ) =~= chars@.subrange(0int, end as int));
        } else {
            let pre = chars@.subrange(0, start as int);
            assert(pre[pre.len() - 1] == '/');
            assert(spec_after_last_slash(pre) == Seq::<char>::empty());
            assert(Seq::<char>::empty() + chars@.subrange(start as int, end as int)
                =~= chars@.subrange(start as int, end as int));
        }
        assert(spec_after_last_slash(chars@.subrange(0, end as int)) == chars@.subrange(
            start as int,
            end as int,
        ));
    }
    let mut name: Vec<char> = Vec::new();
    let mut i = start;
    proof {
        assert(name@ =~= chars@.subrange(start as int, start as int));
    }
    while i < end
        invariant
            chars@ == path@,
            start <= i <= end <= chars@.len(),
            name@ == chars@.subrange(start as int, i as int),
        decreases end - i,
    {
        name.push(chars[i]);
        assert(name@ =~= chars@.subrange(start as int, i + 1));
        i = i + 1;
    }
    proof {
        assert(name@ =~= chars@.subrange(start as int, end as int));
    }
    let is_empty = name.len() == 0;
    let is_dot = name.len() == 1 && name[0] == '.';
    let is_dotdot = name.len() == 2 && name[0] == '.' && name[1] == '.';
    proof {
        reveal_strlit(".");
        reveal_strlit("..");
        assert(is_dot == (name@ == "."@)) by {
            if name@.len() == 1 && name@[0] == '.' {
                assert(name@ =~= "."@);
            }
        }
        assert(is_dotdot == (name@ == ".."@)) by {
            if name@.len() == 2 && name@[0] == '.' && name@[1] == '.' {
                assert(name@ =~= ".."@);
            }
        }
    }
    if is_empty || is_dot || is_dotdot {
        None
    } else {
        Some(chars_to_string(&name))
    }
}

/// The executor: holds the tracked current working directory, the single
/// piece of state, updated only by a successful `cd`.
pub struct Executor {
    pub current_dir: String,
}

impl Executor {
    /// An executor whose tracked working directory is `current_dir`.
    pub fn new(current_dir: String) -> (r: Self)
        ensures
            r.current_dir == current_dir,
    {
        Self { current_dir }
    }

    /// `path` resolved against the tracked working directory.
    pub fn resolve_path(&self, path: &str) -> (r: String)
        ensures
            r@ == spec_resolve(self.current_dir@, path@),
    {
        let n = path.unicode_len();
        if n > 0 && path.get_char(0) == '/' {
            String::from_str(path)
        } else {
            let mut r = self.current_dir.clone();
            r.append("/");
            r.append(path);
            proof {
                reveal_strlit("/");
                assert("/"@ =~= seq!['/']);
            }
            r
        }
    }

    /// The tracked working directory, with a trailing newline. Never fails.
    pub fn pwd(&self) -> (r: Result<String, ExecError>)
        ensures
            r matches Ok(s) && s@ == self.current_dir@ + "\n"@,
    {
        let mut s = self.current_dir.clone();
        s.append("\n");
        Ok(s)
    }

    /// The echoed text, with a trailing newline. Never fails.
    pub fn echo(&self, input: &String) -> (r: Result<String, ExecError>)
        ensures
            r matches Ok(s) && s@ == input@ + "\n"@,
    {
        let mut s = input.clone();
        s.append("\n");
        Ok(s)
    }

    /// Leaving produces no output and never fails.
    pub fn exit(&self) -> (r: Result<String, ExecError>)
        ensures
            r matches Ok(s) && s@.len() == 0,
    {
        Ok(String::new())
    }

    /// Where `cd` should go: an empty operand means the home directory
    /// (an error when none is known); any other operand resolves against
    /// the tracked working directory.
    pub fn cd_target(&self, input: &String, home: &Option<String>) -> (r: Result<
        String,
        ExecError,
    >)
        ensures
            input@.len() == 0 ==> (match home {
                Some(h) => r == Ok::<String, ExecError>(*h),
                None => r == Err::<String, ExecError>(ExecError::HomeUnavailable),
            }),
            input@.len() > 0 ==> (r matches Ok(t) && t@ == spec_resolve(
                self.current_dir@,
                input@,
            )),
    {
        if input.as_str().unicode_len() == 0 {
            match home {
                Some(h) => Ok(h.clone()),
                None => Err(ExecError::HomeUnavailable),
            }
        } else {
            Ok(self.resolve_path(input.as_str()))
        }
    }

    /// Records that the working directory change succeeded: the tracked
    /// directory becomes `new_dir` and the command prints nothing.
    pub fn cd_apply(&mut self, new_dir: String) -> (r: Result<String, ExecError>)
        ensures
            final(self).current_dir == new_dir,
            r matches Ok(s) && s@.len() == 0,
    {
        self.current_dir = new_dir;
        Ok(String::new())
    }

    /// The error a failed working directory change reports.
    pub fn cd_failed(&self, input: &String) -> (r: Result<String, ExecError>)
        ensures
            r == Err::<String, ExecError>(ExecError::NoSuchPath(*input)),
    {
        Err(ExecError::NoSuchPath(input.clone()))
    }
}


/// The views of a vector of strings.
pub open spec fn spec_views(ss: Seq<String>) -> Seq<Seq<char>> {
    ss.map_values(|t: String| t@)
}

/// Every path of `paths` resolved against `cur`.
pub open spec fn spec_resolve_all(cur: Seq<char>, paths: Seq<Seq<char>>) -> Seq<Seq<char>> {
    paths.map_values(|p: Seq<char>| spec_resolve(cur, p))
}

/// The position of the last `mkdir` failure, if any.
pub open spec fn spec_last_mkdir_failure(outs: Seq<Option<String>>) -> Option<int>
    decreases outs.len(),
{
    if outs.len() == 0 {
        None
    } else if outs.last() is Some {
        Some(outs.len() - 1)
    } else {
        spec_last_mkdir_failure(outs.drop_last())
    }
}

/// What one `rm` operand came to: removed by the chosen primitive, removed
/// by the plain-file fallback, or failed with the primary cause.
#[derive(Debug, Clone, PartialEq)]
pub enum RmOutcome {
    Removed,
    FallbackRemoved,
    Failed(String),
}

/// The position of the last `rm` failure, if any.
pub open spec fn spec_last_rm_failure(outs: Seq<RmOutcome>) -> Option<int>
    decreases outs.len(),
{
    if outs.len() == 0 {
        None
    } else if outs.last() is Failed {
        Some(outs.len() - 1)
    } else {
        spec_last_rm_failure(outs.drop_last())
    }
}

/// The text `cat` builds from position `i` on: file contents as they are,
/// and an inline error line for each unreadable path.
pub open spec fn spec_cat_render(
    paths: Seq<Seq<char>>,
    outs: Seq<Result<Seq<char>, Seq<char>>>,
    i: int,
) -> Seq<char>
    decreases outs.len() - i,
{
    if i < 0 || i >= outs.len() || outs.len() != paths.len() {
        Seq::empty()
    } else {
        let rest = spec_cat_render(paths, outs, i + 1);
        match outs[i] {
            Ok(c) => c + rest,
            Err(e) => "Error: "@ + paths[i] + ": "@ + e + "\n"@ + rest,
        }
    }
}

/// The views of `cat` outcomes.
pub open spec fn spec_out_views(outs: Seq<Result<String, String>>) -> Seq<
    Result<Seq<char>, Seq<char>>,
> {
    outs.map_values(
        |o: Result<String, String>|
            match o {
                Ok(c) => Ok(c@),
                Err(e) => Err(e@),
            },
    )
}

impl Executor {
    /// Every path resolved against the tracked working directory, in order.
    pub fn resolve_all(&self, paths: &Vec<String>) -> (r: Vec<String>)
        ensures
            spec_views(r@) == spec_resolve_all(self.current_dir@, spec_views(paths@)),
    {
        let mut r: Vec<String> = Vec::new();
        let mut i: usize = 0;
        proof {
            assert(spec_views(r@) =~= spec_resolve_all(self.current_dir@, spec_views(paths@))
                .subrange(0, 0int));
        }
        while i < paths.len()
            invariant
                i <= paths@.len(),
                spec_views(r@) == spec_resolve_all(self.current_dir@, spec_views(paths@)).subrange(
                    0,
                    i as int,
                ),
            decreases paths@.len() - i,
        {
            let ghost rold = r@;
            let resolved = self.resolve_path(paths[i].as_str());
            r.push(resolved);
            proof {
                broadcast use vstd::prelude::Seq::lemma_push_map_commute;

                assert(spec_views(r@) =~= spec_resolve_all(
                    self.current_dir@,
                    spec_views(paths@),
                ).subrange(0, i + 1));
            }
            i = i + 1;
        }
        proof {
            assert(spec_resolve_all(self.current_dir@, spec_views(paths@)).subrange(
                0,
                paths@.len() as int,
            ) =~= spec_resolve_all(self.current_dir@, spec_views(paths@)));
        }
        r
    }

    /// Folds the per-path outcomes of `mkdir`: empty output when every
    /// directory was created, else the error of the last failing path.
    /// Earlier successes stand; nothing is rolled back.
    pub fn mkdir_collect(paths: &Vec<String>, outcomes: &Vec<Option<String>>) -> (r: Result<
        String,
        ExecError,
    >)
        requires
            paths@.len() == outcomes@.len(),
        ensures
            match spec_last_mkdir_failure(outcomes@) {
                None => r matches Ok(s) && s@.len() == 0,
                Some(j) => r matches Err(e) && (outcomes@[j] matches Some(c) && e
                    == ExecError::CannotCreateDir { path: paths@[j], cause: c }),
            },
    {
        let mut res: Result<String, ExecError> = Ok(String::new());
        let mut k: usize = 0;
        proof {
            assert(outcomes@.subrange(0, 0int) =~= Seq::<Option<String>>::empty());
        }
        while k < outcomes.len()
            invariant
                paths@.len() == outcomes@.len(),
                k <= outcomes@.len(),
                match spec_last_mkdir_failure(outcomes@.subrange(0, k as int)) {
                    None => res matches Ok(s) && s@.len() == 0,
                    Some(j) => res matches Err(e) && (outcomes@[j] matches Some(c) && e
                        == ExecError::CannotCreateDir { path: paths@[j], cause: c }),
                },
            decreases outcomes@.len() - k,
        {
            match &outcomes[k] {
                Some(cause) => {
                    res = Err(
                        ExecError::CannotCreateDir { path: paths[k].clone(), cause: cause.clone() },
                    );
                },
                None => {},
            }
            k = k + 1;
            proof {
                assert(outcomes@.subrange(0, k as int).drop_last() =~= outcomes@.subrange(
                    0,
                    k - 1,
                ));
                assert(outcomes@.subrange(0, k as int).last() == outcomes@[k - 1]);
            }
        }
        proof {
            assert(outcomes@.subrange(0, outcomes@.len() as int) =~= outcomes@);
        }
        res
    }

    /// Folds the per-path outcomes of `rm`: empty output when every path
    /// went away, else the error of the last failing path, built from that
    /// removal's primary cause. Removal continues past failures.
    pub fn rm_collect(paths: &Vec<String>, outcomes: &Vec<RmOutcome>) -> (r: Result<
        String,
        ExecError,
    >)
        requires
            paths@.len() == outcomes@.len(),
        ensures
            match spec_last_rm_failure(outcomes@) {
                None => r matches Ok(s) && s@.len() == 0,
                Some(j) => r matches Err(e) && (outcomes@[j] matches RmOutcome::Failed(c) && e
                    == ExecError::CannotRemove { path: paths@[j], cause: c }),
            },
    {
        let mut res: Result<String, ExecError> = Ok(String::new());
        let mut k: usize = 0;
        proof {
            assert(outcomes@.subrange(0, 0int) =~= Seq::<RmOutcome>::empty());
        }
        while k < outcomes.len()
            invariant
                paths@.len() == outcomes@.len(),
                k <= outcomes@.len(),
                match spec_last_rm_failure(outcomes@.subrange(0, k as int)) {
                    None => res matches Ok(s) && s@.len() == 0,
                    Some(j) => res matches Err(e) && (outcomes@[j] matches RmOutcome::Failed(c)
                        && e == ExecError::CannotRemove { path: paths@[j], cause: c }),
                },
            decreases outcomes@.len() - k,
        {
            match &outcomes[k] {
                RmOutcome::Failed(cause) => {
                    res = Err(
                        ExecError::CannotRemove { path: paths[k].clone(), cause: cause.clone() },
                    );
                },
                _ => {},
            }
            k = k + 1;
            proof {
                assert(outcomes@.subrange(0, k as int).drop_last() =~= outcomes@.subrange(
                    0,
                    k - 1,
                ));
                assert(outcomes@.subrange(0, k as int).last() == outcomes@[k - 1]);
            }
        }
        proof {
            assert(outcomes@.subrange(0, outcomes@.len() as int) =~= outcomes@);
        }
        res
    }

    /// Folds the per-path outcomes of `cat`: contents of readable paths as
    /// they are, an inline `Error:` line for each unreadable one. Never
    /// fails as a whole.
    pub fn cat_collect(paths: &Vec<String>, outcomes: &Vec<Result<String, String>>) -> (r: Result<
        String,
        ExecError,
    >)
        requires
            paths@.len() == outcomes@.len(),
        ensures
            r matches Ok(s) && s@ == spec_cat_render(
                spec_views(paths@),
                spec_out_views(outcomes@),
                0,
            ),
    {
        let ghost pviews = spec_views(paths@);
        let ghost oviews = spec_out_views(outcomes@);
        let mut res = String::new();
        let mut i: usize = 0;
        while i < outcomes.len()
            invariant
                paths@.len() == outcomes@.len(),
                i <= outcomes@.len(),
                pviews == spec_views(paths@),
                oviews == spec_out_views(outcomes@),
                spec_cat_render(pviews, oviews, 0) == res@ + spec_cat_render(
                    pviews,
                    oviews,
                    i as int,
                ),
            decreases outcomes@.len() - i,
        {
            let ghost res0 = res@;
            match &outcomes[i] {
                Ok(content) => {
                    res.append(content.as_str());
                    proof {
                        assert(oviews[i as int] == Ok::<Seq<char>, Seq<char>>(content@));
                        assert(res0 + (content@ + spec_cat_render(pviews, oviews, i + 1)) =~= res@
                            + spec_cat_render(pviews, oviews, i + 1));
                    }
                },
                Err(cause) => {
                    res.append("Error: ");
                    res.append(paths[i].as_str());
                    res.append(": ");
                    res.append(cause.as_str());
                    res.append("\n");
                    proof {
                        assert(oviews[i as int] == Err::<Seq<char>, Seq<char>>(cause@));
                        assert(pviews[i as int] == paths@[i as int]@);
                        assert(res0 + ("Error: "@ + pviews[i as int] + ": "@ + cause@ + "\n"@
                            + spec_cat_render(pviews, oviews, i + 1)) =~= res@ + spec_cat_render(
                            pviews,
                            oviews,
                            i + 1,
                        ));
                    }
                },
            }
            i = i + 1;
        }
        proof {
            assert(spec_cat_render(pviews, oviews, outcomes@.len() as int) == Seq::<char>::empty());
            assert(res@ + Seq::<char>::empty() =~= res@);
        }
        Ok(res)
    }
}


/// The views of a vector of string pairs.
pub open spec fn spec_pair_views(ps: Seq<(String, String)>) -> Seq<(Seq<char>, Seq<char>)> {
    ps.map_values(|p: (String, String)| (p.0@, p.1@))
}

/// The first source (among `pv` less its last element, the destination
/// operand) that resolves to `dest` itself, scanning from position `i`.
pub open spec fn spec_first_same(
    cur: Seq<char>,
    pv: Seq<Seq<char>>,
    dest: Seq<char>,
    i: int,
) -> Option<int>
    decreases pv.len() - i,
{
    if i < 0 || i >= pv.len() - 1 {
        None
    } else if spec_resolve(cur, pv[i]) == dest {
        Some(i)
    } else {
        spec_first_same(cur, pv, dest, i + 1)
    }
}

/// Some source operand has no base name.
pub open spec fn spec_any_base_missing(pv: Seq<Seq<char>>) -> bool {
    exists|k: int| 0 <= k < pv.len() - 1 && spec_base_name(pv[k]) is None
}

/// The copy pairs of a `cp`: each source resolved, paired with the
/// destination itself, or with its base name inside the destination
/// directory when `into_dir` holds.
pub open spec fn spec_cp_pairs(
    cur: Seq<char>,
    pv: Seq<Seq<char>>,
    dest: Seq<char>,
    into_dir: bool,
) -> Seq<(Seq<char>, Seq<char>)> {
    Seq::new(
        (pv.len() - 1) as nat,
        |k: int|
            (
                spec_resolve(cur, pv[k]),
                if into_dir {
                    spec_join(dest, spec_base_name(pv[k])->0)
                } else {
                    dest
                },
            ),
    )
}

/// The checks `cp` makes once the destination's state allows the copy: no
/// source may resolve to the destination, and every source needs a base
/// name when the targets go into a directory.
pub open spec fn spec_cp_checked(
    cur: Seq<char>,
    paths: Seq<String>,
    dest: Seq<char>,
    into_dir: bool,
    r: Result<Vec<(String, String)>, ExecError>,
) -> bool {
    let pv = spec_views(paths);
    match spec_first_same(cur, pv, dest, 0) {
        Some(k) => r == Err::<Vec<(String, String)>, ExecError>(ExecError::SamePath(paths[k])),
        None => if into_dir && spec_any_base_missing(pv) {
            r == Err::<Vec<(String, String)>, ExecError>(ExecError::InvalidSourcePath)
        } else {
            r matches Ok(pairs) && spec_pair_views(pairs@) == spec_cp_pairs(cur, pv, dest, into_dir)
        },
    }
}

/// One planned `mv` source: the raw operand, its resolved path, its final
/// destination path, and whether the move is a no-op because both are the
/// same path.
#[derive(Debug, Clone, PartialEq)]
pub struct MvItem {
    pub source_raw: String,
    pub source: String,
    pub dest: String,
    pub same: bool,
}

/// The views of a vector of planned `mv` sources.
pub open spec fn spec_mv_item_views(items: Seq<MvItem>) -> Seq<(Seq<char>, Seq<char>, Seq<char>, bool)> {
    items.map_values(|it: MvItem| (it.source_raw@, it.source@, it.dest@, it.same))
}

/// The planned `mv` sources: each resolved, given its final destination
/// (inside the destination directory when `into_dir` holds), and marked as
/// a no-op exactly when source and final destination are one path.
pub open spec fn spec_mv_items(
    cur: Seq<char>,
    pv: Seq<Seq<char>>,
    dest: Seq<char>,
    into_dir: bool,
) -> Seq<(Seq<char>, Seq<char>, Seq<char>, bool)> {
    Seq::new(
        (pv.len() - 1) as nat,
        |k: int|
            {
                let src = spec_resolve(cur, pv[k]);
                let d = if into_dir {
                    spec_join(dest, spec_base_name(pv[k])->0)
                } else {
                    dest
                };
                (pv[k], src, d, src == d)
            },
    )
}

/// What one attempted rename came to: done, or failed with the cause and
/// whether the platform reported a cross-device link.
#[derive(Debug, Clone, PartialEq)]
pub enum RenameOutcome {
    Renamed,
    Failed { cross_device: bool, cause: String },
}

/// What to do after one attempted rename: nothing more, fall back to the
/// cross-device copy-then-delete, or record the failure.
#[derive(Debug, Clone, PartialEq)]
pub enum MvStep {
    Done,
    CrossDeviceFallback,
    Fail(String),
}

/// How one planned `mv` source starts: skipped as a no-op, recorded as
/// missing, or attempted as a rename.
#[derive(Debug, Clone, PartialEq)]
pub enum MvAction {
    Skip,
    RecordMissing,
    TryRename,
}

/// What one planned `mv` source came to in the end.
#[derive(Debug, Clone, PartialEq)]
pub enum MvOutcome {
    Moved,
    Skipped,
    Failed(ExecError),
}

/// The position of the last `mv` failure, if any.
pub open spec fn spec_last_mv_failure(outs: Seq<MvOutcome>) -> Option<int>
    decreases outs.len(),
{
    if outs.len() == 0 {
        None
    } else if outs.last() is Failed {
        Some(outs.len() - 1)
    } else {
        spec_last_mv_failure(outs.drop_last())
    }
}

/// Decides how a planned source starts: a source that cannot be examined is
/// recorded, a source that already stands at its destination is skipped,
/// everything else is renamed first.
pub fn mv_action(item: &MvItem, source_state: &PathState) -> (r: MvAction)
    ensures
        r == (if source_state is Missing {
            MvAction::RecordMissing
        } else if item.same {
            MvAction::Skip
        } else {
            MvAction::TryRename
        }),
{
    match source_state {
        PathState::Missing(_) => MvAction::RecordMissing,
        _ => {
            if item.same {
                MvAction::Skip
            } else {
                MvAction::TryRename
            }
        },
    }
}

/// Decides what follows one attempted rename: success ends the move, a
/// cross-device failure falls back to copy-then-delete, any other failure
/// is recorded with its cause.
pub fn mv_step(outcome: &RenameOutcome) -> (r: MvStep)
    ensures
        r == (match outcome {
            RenameOutcome::Renamed => MvStep::Done,
            RenameOutcome::Failed { cross_device, cause } => if *cross_device {
                MvStep::CrossDeviceFallback
            } else {
                MvStep::Fail(*cause)
            },
        }),
{
    match outcome {
        RenameOutcome::Renamed => MvStep::Done,
        RenameOutcome::Failed { cross_device, cause } => {
            if *cross_device {
                MvStep::CrossDeviceFallback
            } else {
                MvStep::Fail(cause.clone())
            }
        },
    }
}

/// Whether a rename failure names a cross-device link: the platform's
/// cross-device code, or a message that says so.
pub fn is_cross_device_error(code: &Option<i32>, message: &str) -> (r: bool)
    ensures
        r == (match code {
            Some(c) => c == 18 || spec_contains(message@, "cross-device"@),
            None => spec_contains(message@, "cross-device"@),
        }),
{
    match code {
        Some(c) => {
            if *c == 18 {
                true
            } else {
                str_contains(message, "cross-device")
            }
        },
        None => str_contains(message, "cross-device"),
    }
}

/// The delete phase of a cross-device move runs only when the whole copy
/// phase succeeded: a failed copy never costs the source.
pub fn xdev_should_delete(copy_error: &Option<String>) -> (r: bool)
    ensures
        r == (copy_error is None),
{
    match copy_error {
        None => true,
        Some(_) => false,
    }
}

/// Folds the two phases of a cross-device file move: a copy failure wins
/// and is reported first, then a failure to remove the copied source, else
/// the move is done with no output.
pub fn xdev_file_result(
    source: &String,
    dest: &String,
    copy_error: Option<String>,
    remove_error: Option<String>,
) -> (r: Result<String, ExecError>)
    ensures
        match copy_error {
            Some(c) => r == Err::<String, ExecError>(
                ExecError::CopyFileFailed { source: *source, dest: *dest, cause: c },
            ),
            None => match remove_error {
                Some(c) => r == Err::<String, ExecError>(
                    ExecError::RemoveSourceFileFailed { source: *source, cause: c },
                ),
                None => r matches Ok(s) && s@.len() == 0,
            },
        },
{
    match copy_error {
        Some(c) => Err(
            ExecError::CopyFileFailed { source: source.clone(), dest: dest.clone(), cause: c },
        ),
        None => match remove_error {
            Some(c) => Err(ExecError::RemoveSourceFileFailed { source: source.clone(), cause: c }),
            None => Ok(String::new()),
        },
    }
}

/// Folds the two phases of a cross-device directory move: a copy-phase
/// failure wins, then a failure to remove the copied source tree, else the
/// move is done with no output.
pub fn xdev_dir_result(
    source: &String,
    copy_error: Option<ExecError>,
    remove_error: Option<String>,
) -> (r: Result<String, ExecError>)
    ensures
        match copy_error {
            Some(e) => r == Err::<String, ExecError>(e),
            None => match remove_error {
                Some(c) => r == Err::<String, ExecError>(
                    ExecError::RemoveSourceDirFailed { source: *source, cause: c },
                ),
                None => r matches Ok(s) && s@.len() == 0,
            },
        },
{
    match copy_error {
        Some(e) => Err(e),
        None => match remove_error {
            Some(c) => Err(ExecError::RemoveSourceDirFailed { source: source.clone(), cause: c }),
            None => Ok(String::new()),
        },
    }
}

/// One entry of a directory being copied across devices.
#[derive(Debug, Clone, PartialEq)]
pub struct TreeEntry {
    pub name: String,
    pub is_dir: bool,
}

/// The views of a vector of tree entries.
pub open spec fn spec_entry_views(es: Seq<TreeEntry>) -> Seq<(Seq<char>, bool)> {
    es.map_values(|e: TreeEntry| (e.name@, e.is_dir))
}

/// The children of one copied directory level with `is_dir == want_dir`,
/// each as a pair of source path and destination path, in entry order.
pub open spec fn spec_tree_children(
    src: Seq<char>,
    dest: Seq<char>,
    entries: Seq<(Seq<char>, bool)>,
    want_dir: bool,
) -> Seq<(Seq<char>, Seq<char>)>
    decreases entries.len(),
{
    if entries.len() == 0 {
        Seq::empty()
    } else {
        let e = entries.first();
        let rest = spec_tree_children(src, dest, entries.drop_first(), want_dir);
        if e.1 == want_dir {
            seq![(spec_join(src, e.0), spec_join(dest, e.0))] + rest
        } else {
            rest
        }
    }
}

/// One level of the cross-device tree copy: splits a directory's entries
/// into the subdirectory pairs that join the work queue and the file pairs
/// to copy now, each joined onto the level's source and destination.
pub fn copy_tree_step(src_dir: &String, dest_dir: &String, entries: &Vec<TreeEntry>) -> (r: (
    Vec<(String, String)>,
    Vec<(String, String)>,
))
    ensures
        spec_pair_views(r.0@) == spec_tree_children(
            src_dir@,
            dest_dir@,
            spec_entry_views(entries@),
            true,
        ),
        spec_pair_views(r.1@) == spec_tree_children(
            src_dir@,
            dest_dir@,
            spec_entry_views(entries@),
            false,
        ),
{
    let ghost ev = spec_entry_views(entries@);
    let mut dirs: Vec<(String, String)> = Vec::new();
    let mut files: Vec<(String, String)> = Vec::new();
    let mut i: usize = 0;
    proof {
        assert(ev.subrange(0, ev.len() as int) =~= ev);
        assert(spec_pair_views(dirs@) =~= Seq::<(Seq<char>, Seq<char>)>::empty());
        assert(spec_pair_views(files@) =~= Seq::<(Seq<char>, Seq<char>)>::empty());
    }
    while i < entries.len()
        invariant
            i <= entries@.len(),
            ev == spec_entry_views(entries@),
            spec_tree_children(src_dir@, dest_dir@, ev, true) == spec_pair_views(dirs@)
                + spec_tree_children(src_dir@, dest_dir@, ev.subrange(i as int, ev.len() as int), true),
            spec_tree_children(src_dir@, dest_dir@, ev, false) == spec_pair_views(files@)
                + spec_tree_children(src_dir@, dest_dir@, ev.subrange(i as int, ev.len() as int), false),
        decreases entries@.len() - i,
    {
        let ghost dirs0 = dirs@;
        let ghost files0 = files@;
        let ghost remaining = ev.subrange(i as int, ev.len() as int);
        proof {
            assert(remaining.first() == ev[i as int]);
            assert(remaining.drop_first() =~= ev.subrange(i + 1, ev.len() as int));
        }
        let child_src = join_path(src_dir.as_str(), entries[i].name.as_str());
        let child_dest = join_path(dest_dir.as_str(), entries[i].name.as_str());
        if entries[i].is_dir {
            dirs.push((child_src, child_dest));
            proof {
                broadcast use vstd::prelude::Seq::lemma_push_map_commute;

                assert(spec_pair_views(dirs@) =~= spec_pair_views(dirs0).push(
                    (spec_join(src_dir@, ev[i as int].0), spec_join(dest_dir@, ev[i as int].0)),
                ));
                assert(spec_pair_views(dirs0).push(
                    (spec_join(src_dir@, ev[i as int].0), spec_join(dest_dir@, ev[i as int].0)),
                ) + spec_tree_children(src_dir@, dest_dir@, ev.subrange(i + 1, ev.len() as int), true)
                    =~= spec_pair_views(dirs0) + spec_tree_children(
                    src_dir@,
                    dest_dir@,
                    remaining,
                    true,
                ));
            }
        } else {
            files.push((child_src, child_dest));
            proof {
                broadcast use vstd::prelude::Seq::lemma_push_map_commute;

                assert(spec_pair_views(files@) =~= spec_pair_views(files0).push(
                    (spec_join(src_dir@, ev[i as int].0), spec_join(dest_dir@, ev[i as int].0)),
                ));
                assert(spec_pair_views(files0).push(
                    (spec_join(src_dir@, ev[i as int].0), spec_join(dest_dir@, ev[i as int].0)),
                ) + spec_tree_children(src_dir@, dest_dir@, ev.subrange(i + 1, ev.len() as int), false)
                    =~= spec_pair_views(files0) + spec_tree_children(
                    src_dir@,
                    dest_dir@,
                    remaining,
                    false,
                ));
            }
        }
        i = i + 1;
    }
    proof {
        assert(ev.subrange(ev.len() as int, ev.len() as int).len() == 0);
        assert(spec_pair_views(dirs@) + Seq::<(Seq<char>, Seq<char>)>::empty() =~= spec_pair_views(
            dirs@,
        ));
        assert(spec_pair_views(files@) + Seq::<(Seq<char>, Seq<char>)>::empty()
            =~= spec_pair_views(files@));
    }
    (dirs, files)
}


impl Executor {
    /// Plans a copy. The last operand is the destination; it must be a
    /// directory when several sources are given (an existing plain file or
    /// an unexaminable path is refused then). No source may resolve to the
    /// destination itself. Sources copied into a directory each need a base
    /// name. The plan pairs every resolved source with its target; nothing
    /// is copied when any check fails.
    pub fn cp_plan(&self, paths: &Vec<String>, dest_state: &PathState) -> (r: Result<
        Vec<(String, String)>,
        ExecError,
    >)
        requires
            paths@.len() >= 2,
        ensures
            ({
                let cur = self.current_dir@;
                let pv = spec_views(paths@);
                let n = pv.len() - 1;
                let dest = spec_resolve(cur, pv[n]);
                match dest_state {
                    PathState::Missing(c) => if n > 1 {
                        r == Err::<Vec<(String, String)>, ExecError>(
                            ExecError::DestinationMissing(*c),
                        )
                    } else {
                        spec_cp_checked(cur, paths@, dest, false, r)
                    },
                    PathState::File => if n > 1 {
                        r == Err::<Vec<(String, String)>, ExecError>(
                            ExecError::DestinationNotDirectory,
                        )
                    } else {
                        spec_cp_checked(cur, paths@, dest, false, r)
                    },
                    _ => spec_cp_checked(cur, paths@, dest, true, r),
                }
            }),
    {
        let ghost cur = self.current_dir@;
        let ghost pv = spec_views(paths@);
        let n = paths.len() - 1;
        let dest = self.resolve_path(paths[n].as_str());
        let into_dir: bool;
        match dest_state {
            PathState::Missing(c) => {
                if n > 1 {
                    return Err(ExecError::DestinationMissing(c.clone()));
                }
                into_dir = false;
            },
            PathState::File => {
                if n > 1 {
                    return Err(ExecError::DestinationNotDirectory);
                }
                into_dir = false;
            },
            _ => {
                into_dir = true;
            },
        }
        let mut k: usize = 0;
        while k < n
            invariant
                k <= n,
                n == paths@.len() - 1,
                pv == spec_views(paths@),
                cur == self.current_dir@,
                dest@ == spec_resolve(cur, pv[n as int]),
                into_dir == (dest_state is Dir || dest_state is Other),
                (dest_state is Missing || dest_state is File) ==> n <= 1,
                spec_first_same(cur, pv, dest@, 0) == spec_first_same(cur, pv, dest@, k as int),
            decreases n - k,
        {
            let rk = self.resolve_path(paths[k].as_str());
            proof {
                assert(pv.len() == paths@.len());
                assert(pv[k as int] == paths@[k as int]@);
            }
            if str_eq(rk.as_str(), dest.as_str()) {
                proof {
                    assert(spec_first_same(cur, pv, dest@, k as int) == Some(k as int));
                }
                return Err(ExecError::SamePath(paths[k].clone()));
            }
            k = k + 1;
        }
        proof {
            assert(spec_first_same(cur, pv, dest@, n as int) is None);
        }
        let mut pairs: Vec<(String, String)> = Vec::new();
        let mut i: usize = 0;
        proof {
            assert(spec_pair_views(pairs@) =~= spec_cp_pairs(cur, pv, dest@, into_dir).subrange(
                0,
                0int,
            ));
        }
        while i < n
            invariant
                i <= n,
                n == paths@.len() - 1,
                pv == spec_views(paths@),
                cur == self.current_dir@,
                dest@ == spec_resolve(cur, pv[n as int]),
                spec_first_same(cur, pv, dest@, 0) is None,
                into_dir == (dest_state is Dir || dest_state is Other),
                (dest_state is Missing || dest_state is File) ==> n <= 1,
                spec_pair_views(pairs@) == spec_cp_pairs(cur, pv, dest@, into_dir).subrange(
                    0,
                    i as int,
                ),
                forall|m: int| 0 <= m < i ==> !(into_dir && spec_base_name(pv[m]) is None),
            decreases n - i,
        {
            let ghost pairs0 = pairs@;
            proof {
                assert(pv.len() == paths@.len());
                assert(pv[i as int] == paths@[i as int]@);
            }
            let target: String;
            if into_dir {
                match base_name(paths[i].as_str()) {
                    Some(b) => {
                        target = join_path(dest.as_str(), b.as_str());
                    },
                    None => {
                        proof {
                            assert(spec_base_name(pv[i as int]) is None);
                        }
                        return Err(ExecError::InvalidSourcePath);
                    },
                }
            } else {
                target = dest.clone();
            }
            let resolved = self.resolve_path(paths[i].as_str());
            pairs.push((resolved, target));
            proof {
                broadcast use vstd::prelude::Seq::lemma_push_map_commute;

                assert(spec_cp_pairs(cur, pv, dest@, into_dir)[i as int] == (
                    spec_resolve(cur, pv[i as int]),
                    if into_dir {
                        spec_join(dest@, spec_base_name(pv[i as int])->0)
                    } else {
                        dest@
                    },
                ));
                assert(spec_pair_views(pairs@) =~= spec_cp_pairs(cur, pv, dest@, into_dir).subrange(
                    0,
                    i + 1,
                ));
            }
            i = i + 1;
        }
        proof {
            assert(spec_cp_pairs(cur, pv, dest@, into_dir).subrange(0, n as int)
                =~= spec_cp_pairs(cur, pv, dest@, into_dir));
            if into_dir {
                assert(!spec_any_base_missing(pv));
            }
        }
        Ok(pairs)
    }

    /// Plans a move. The last operand is the destination; several sources
    /// need an existing directory there. A source moved into a directory
    /// needs a base name. Each planned item carries its resolved source,
    /// its final destination, and whether the move is a no-op.
    pub fn mv_plan(&self, paths: &Vec<String>, dest_state: &PathState) -> (r: Result<
        Vec<MvItem>,
        ExecError,
    >)
        requires
            paths@.len() >= 2,
        ensures
            ({
                let cur = self.current_dir@;
                let pv = spec_views(paths@);
                let n = pv.len() - 1;
                let dest = spec_resolve(cur, pv[n]);
                let into_dir = dest_state is Dir;
                if n > 1 && !(dest_state is Missing) && !into_dir {
                    r == Err::<Vec<MvItem>, ExecError>(
                        ExecError::MvDestinationNotDirectory(paths@[n]),
                    )
                } else if into_dir && spec_any_base_missing(pv) {
                    r == Err::<Vec<MvItem>, ExecError>(ExecError::InvalidSourcePath)
                } else {
                    r matches Ok(items) && spec_mv_item_views(items@) == spec_mv_items(
                        cur,
                        pv,
                        dest,
                        into_dir,
                    )
                }
            }),
    {
        let ghost cur = self.current_dir@;
        let ghost pv = spec_views(paths@);
        let n = paths.len() - 1;
        let dest = self.resolve_path(paths[n].as_str());
        let into_dir = match dest_state {
            PathState::Dir => true,
            _ => false,
        };
        let exists_dest = match dest_state {
            PathState::Missing(_) => false,
            _ => true,
        };
        if n > 1 && exists_dest && !into_dir {
            return Err(ExecError::MvDestinationNotDirectory(paths[n].clone()));
        }
        let mut items: Vec<MvItem> = Vec::new();
        let mut i: usize = 0;
        proof {
            assert(spec_mv_item_views(items@) =~= spec_mv_items(cur, pv, dest@, into_dir).subrange(
                0,
                0int,
            ));
        }
        while i < n
            invariant
                i <= n,
                n == paths@.len() - 1,
                pv == spec_views(paths@),
                cur == self.current_dir@,
                dest@ == spec_resolve(cur, pv[n as int]),
                into_dir == dest_state is Dir,
                !(n > 1 && !(dest_state is Missing) && !(dest_state is Dir)),
                spec_mv_item_views(items@) == spec_mv_items(cur, pv, dest@, into_dir).subrange(
                    0,
                    i as int,
                ),
                forall|m: int| 0 <= m < i ==> !(into_dir && spec_base_name(pv[m]) is None),
            decreases n - i,
        {
            proof {
                assert(pv.len() == paths@.len());
                assert(pv[i as int] == paths@[i as int]@);
            }
            let final_dest: String;
            if into_dir {
                match base_name(paths[i].as_str()) {
                    Some(b) => {
                        final_dest = join_path(dest.as_str(), b.as_str());
                    },
                    None => {
                        proof {
                            assert(spec_base_name(pv[i as int]) is None);
                        }
                        return Err(ExecError::InvalidSourcePath);
                    },
                }
            } else {
                final_dest = dest.clone();
            }
            let resolved = self.resolve_path(paths[i].as_str());
            let same = str_eq(resolved.as_str(), final_dest.as_str());
            let item = MvItem {
                source_raw: paths[i].clone(),
                source: resolved,
                dest: final_dest,
                same,
            };
            items.push(item);
            proof {
                broadcast use vstd::prelude::Seq::lemma_push_map_commute;

                assert(spec_mv_items(cur, pv, dest@, into_dir)[i as int] == ({
                    let src = spec_resolve(cur, pv[i as int]);
                    let d = if into_dir {
                        spec_join(dest@, spec_base_name(pv[i as int])->0)
                    } else {
                        dest@
                    };
                    (pv[i as int], src, d, src == d)
                }));
                assert(spec_mv_item_views(items@) =~= spec_mv_items(
                    cur,
                    pv,
                    dest@,
                    into_dir,
                ).subrange(0, i + 1));
            }
            i = i + 1;
        }
        proof {
            assert(spec_mv_items(cur, pv, dest@, into_dir).subrange(0, n as int) =~= spec_mv_items(
                cur,
                pv,
                dest@,
                into_dir,
            ));
            if into_dir {
                assert(!spec_any_base_missing(pv));
            }
        }
        Ok(items)
    }

    /// Folds the per-source outcomes of `mv`: empty output when nothing
    /// failed, else the error of the last failing source. Moving continues
    /// past failures.
    pub fn mv_collect(outcomes: Vec<MvOutcome>) -> (r: Result<String, ExecError>)
        ensures
            match spec_last_mv_failure(outcomes@) {
                None => r matches Ok(s) && s@.len() == 0,
                Some(j) => outcomes@[j] matches MvOutcome::Failed(e) && r == Err::<
                    String,
                    ExecError,
                >(e),
            },
    {
        let mut fail_idx: Option<usize> = None;
        let mut k: usize = 0;
        proof {
            assert(outcomes@.subrange(0, 0int) =~= Seq::<MvOutcome>::empty());
        }
        while k < outcomes.len()
            invariant
                k <= outcomes@.len(),
                match spec_last_mv_failure(outcomes@.subrange(0, k as int)) {
                    None => fail_idx is None,
                    Some(j) => fail_idx matches Some(u) && u == j && 0 <= j < outcomes@.len()
                        && outcomes@[j] is Failed,
                },
            decreases outcomes@.len() - k,
        {
            match &outcomes[k] {
                MvOutcome::Failed(_) => {
                    fail_idx = Some(k);
                },
                _ => {},
            }
            k = k + 1;
            proof {
                assert(outcomes@.subrange(0, k as int).drop_last() =~= outcomes@.subrange(
                    0,
                    k - 1,
                ));
                assert(outcomes@.subrange(0, k as int).last() == outcomes@[k - 1]);
            }
        }
        proof {
            assert(outcomes@.subrange(0, outcomes@.len() as int) =~= outcomes@);
        }
        match fail_idx {
            None => Ok(String::new()),
            Some(u) => {
                let mut rest = outcomes;
                let taken = rest.remove(u);
                match taken {
                    MvOutcome::Failed(e) => Err(e),
                    _ => {
                        proof {
                            assert(false);
                        }
                        Ok(String::new())
                    },
                }
            },
        }
    }
}

} // verus!
