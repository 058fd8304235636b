//! Data model of the version-control protocol: the captured result of one
//! engine invocation, the errors the protocol reports, the ownership
//! classification of a target directory, and the exact argument lists of
//! the engine commands the service issues. All engine commands run against
//! the tool's own metadata directory, kept apart from any unrelated
//! version-control metadata in the same directory.

use vstd::prelude::*;

use crate::text::trim_spec;

verus! {

/// The name of the tool's own metadata directory inside a target.
pub fn gsd_dir_name() -> (r: &'static str)
    ensures
        r@ == ".gsd"@,
{
    ".gsd"
}

/// The name of the optional per-target ignore-override file.
pub fn gsd_ignore_file_name() -> (r: &'static str)
    ensures
        r@ == ".gsdignore"@,
{
    ".gsdignore"
}

/// Classification of a target directory: either no snapshot metadata
/// directory is present, or the tool's own metadata directory is.
#[derive(Clone, Copy, PartialEq, Eq, Structural, Debug)]
pub enum RepoOwnership {
    /// No snapshot metadata directory exists in the target.
    NoRepo,
    /// The tool's own metadata directory exists, so the repository is ours.
    Ours,
}

/// Classifies a directory from the one observable fact that decides
/// ownership: whether the tool's metadata directory is present.
pub fn ownership_from_marker(marker_present: bool) -> (r: RepoOwnership)
    ensures
        r == (if marker_present {
            RepoOwnership::Ours
        } else {
            RepoOwnership::NoRepo
        }),
{
    if marker_present {
        RepoOwnership::Ours
    } else {
        RepoOwnership::NoRepo
    }
}

/// The mathematical value of a [`GitCommandResult`].
pub struct GitCommandResultView {
    pub stdout: Seq<char>,
    pub stderr: Seq<char>,
    pub exit_code: i32,
    pub truncated: bool,
}

/// The outcome of one engine invocation: captured output (size-bounded,
/// with a truncation flag), captured error text, and the exit status.
pub struct GitCommandResult {
    pub stdout: String,
    pub stderr: String,
    pub exit_code: i32,
    pub truncated: bool,
}

impl View for GitCommandResult {
    type V = GitCommandResultView;

    open spec fn view(&self) -> GitCommandResultView {
        GitCommandResultView {
            stdout: self.stdout@,
            stderr: self.stderr@,
            exit_code: self.exit_code,
            truncated: self.truncated,
        }
    }
}

/// An error reported by the version-control protocol. Variants that wrap
/// an underlying failure carry its rendered message.
#[derive(Debug)]
pub enum GitError {
    /// The engine exited nonzero; the message is its trimmed error text.
    CommandFailed { message: String },
    /// The engine binary is not available at all.
    NotAvailable,
    /// An input/output failure around the engine call.
    Io { message: String },
    /// The working tree is in a detached state and commits are unsafe.
    DetachedHead { path: String },
}

impl GitError {
    /// A rendering of the error for display.
    pub fn message(&self) -> (r: String)
        ensures
            match self {
                GitError::CommandFailed { message } => r@ == "git command failed: "@ + message@,
                GitError::NotAvailable => r@ == "git is not available"@,
                GitError::Io { message } => r@ == "io error: "@ + message@,
                GitError::DetachedHead { path } => r@ == "detached HEAD in "@ + path@,
            },
    {
        match self {
            GitError::CommandFailed { message } => {
                let mut m = String::from_str("git command failed: ");
                m.append(message.as_str());
                m
            },
            GitError::NotAvailable => String::from_str("git is not available"),
            GitError::Io { message } => {
                let mut m = String::from_str("io error: ");
                m.append(message.as_str());
                m
            },
            GitError::DetachedHead { path } => {
                let mut m = String::from_str("detached HEAD in ");
                m.append(path.as_str());
                m
            },
        }
    }
}

/// Classifies an engine result: a nonzero exit status is a structured
/// failure carrying the trimmed captured error text.
pub fn command_failure(res: &GitCommandResult) -> (r: Option<GitError>)
    ensures
        res@.exit_code == 0 <==> r is None,
        r matches Some(e) ==> (e matches GitError::CommandFailed { message } && message@
            == trim_spec(res@.stderr)),
{
    if res.exit_code != 0 {
        Some(GitError::CommandFailed { message: crate::text::trim(res.stderr.as_str()) })
    } else {
        None
    }
}

/// Reads the branch-name probe: the probe prints `HEAD` exactly when the
/// working tree points at no movable branch, in which case commits must
/// not be automated.
pub fn parse_detached_head(res: &GitCommandResult) -> (r: Result<bool, GitError>)
    ensures
        res@.exit_code == 0 ==> (r matches Ok(b) && b == (trim_spec(res@.stdout) == "HEAD"@)),
        res@.exit_code != 0 ==> (r matches Err(GitError::CommandFailed { message }) && message@
            == trim_spec(res@.stderr)),
{
    if res.exit_code != 0 {
        Err(GitError::CommandFailed { message: crate::text::trim(res.stderr.as_str()) })
    } else {
        let t = crate::text::trim(res.stdout.as_str());
        Ok(t.eq(&String::from_str("HEAD")))
    }
}

/// The arguments that point the engine at the tool's own metadata
/// directory, so it never touches unrelated version-control state.
pub fn snapshot_dir_args() -> (r: Vec<String>)
    ensures
        r.deep_view() =~= seq!["--git-dir=.gsd"@, "--work-tree=."@],
{
    let mut v: Vec<String> = Vec::new();
    v.push(String::from_str("--git-dir=.gsd"));
    v.push(String::from_str("--work-tree=."));
    v
}

/// The change-detection probe: status in machine-parseable, NUL-separated
/// record mode.
pub fn status_args() -> (r: Vec<String>)
    ensures
        r.deep_view() =~= seq!["status"@, "--porcelain"@, "-z"@],
{
    let mut v: Vec<String> = Vec::new();
    v.push(String::from_str("status"));
    v.push(String::from_str("--porcelain"));
    v.push(String::from_str("-z"));
    v
}

/// The detachment probe: prints the current branch name, or `HEAD` when
/// the working tree is detached.
pub fn head_check_args() -> (r: Vec<String>)
    ensures
        r.deep_view() =~= seq!["rev-parse"@, "--abbrev-ref"@, "HEAD"@],
{
    let mut v: Vec<String> = Vec::new();
    v.push(String::from_str("rev-parse"));
    v.push(String::from_str("--abbrev-ref"));
    v.push(String::from_str("HEAD"));
    v
}

/// Stages every change in the working tree.
pub fn add_all_args() -> (r: Vec<String>)
    ensures
        r.deep_view() =~= seq!["add"@, "-A"@],
{
    let mut v: Vec<String> = Vec::new();
    v.push(String::from_str("add"));
    v.push(String::from_str("-A"));
    v
}

/// Creates fresh version-control metadata in the target.
pub fn init_args() -> (r: Vec<String>)
    ensures
        r.deep_view() =~= seq!["init"@],
{
    let mut v: Vec<String> = Vec::new();
    v.push(String::from_str("init"));
    v
}

/// Commits the staged changes with the given message; an empty commit is
/// allowed only when asked for (the initial commit).
pub fn commit_args(message: &String, allow_empty: bool) -> (r: Vec<String>)
    ensures
        allow_empty ==> r.deep_view() =~= seq!["commit"@, "-m"@, message@, "--allow-empty"@],
        !allow_empty ==> r.deep_view() =~= seq!["commit"@, "-m"@, message@],
{
    let mut v: Vec<String> = Vec::new();
    v.push(String::from_str("commit"));
    v.push(String::from_str("-m"));
    v.push(message.clone());
    if allow_empty {
        v.push(String::from_str("--allow-empty"));
    }
    v
}

/// The three identity settings written into the target's repository:
/// author name, author email, and no commit signing.
pub fn identity_commands(author_name: &String, author_email: &String) -> (r: Vec<Vec<String>>)
    ensures
        r.deep_view() =~= seq![
            seq!["config"@, "user.name"@, author_name@],
            seq!["config"@, "user.email"@, author_email@],
            seq!["config"@, "commit.gpgsign"@, "false"@],
        ],
{
    let mut name_cmd: Vec<String> = Vec::new();
    name_cmd.push(String::from_str("config"));
    name_cmd.push(String::from_str("user.name"));
    name_cmd.push(author_name.clone());
    let mut email_cmd: Vec<String> = Vec::new();
    email_cmd.push(String::from_str("config"));
    email_cmd.push(String::from_str("user.email"));
    email_cmd.push(author_email.clone());
    let mut sign_cmd: Vec<String> = Vec::new();
    sign_cmd.push(String::from_str("config"));
    sign_cmd.push(String::from_str("commit.gpgsign"));
    sign_cmd.push(String::from_str("false"));
    let ghost n = name_cmd.deep_view();
    let ghost e = email_cmd.deep_view();
    let ghost s = sign_cmd.deep_view();
    let mut v: Vec<Vec<String>> = Vec::new();
    v.push(name_cmd);
    v.push(email_cmd);
    v.push(sign_cmd);
    proof {
        assert(n =~= seq!["config"@, "user.name"@, author_name@]);
        assert(e =~= seq!["config"@, "user.email"@, author_email@]);
        assert(s =~= seq!["config"@, "commit.gpgsign"@, "false"@]);
        assert(v.deep_view() =~= seq![n, e, s]);
    }
    v
}

} // verus!
