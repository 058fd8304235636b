//! The commit engine: the decision protocol of one commit cycle, and the
//! initialization protocol of one target. A cycle is a small state
//! machine: it asks for one engine command at a time, consumes that
//! command's result, and moves on, so the order of checks — detachment
//! first, then change detection, then stage and commit — is fixed by the
//! transition function itself. A detached working tree ends the cycle at
//! once, before any staging; a clean tree ends it as a successful no-op.

use vstd::prelude::*;

use crate::git::{
    add_all_args, commit_args, head_check_args, status_args, GitCommandResult,
    GitCommandResultView, RepoOwnership,
};
use crate::message::{commit_message_spec, format_commit_message};
use crate::status::{canonical_paths, parse_status_output, status_paths};
use crate::text::trim_spec;

verus! {

/// How many changed paths the auto-generated commit message lists.
pub fn message_file_limit() -> (r: usize)
    ensures
        r == 10,
{
    10
}

/// The mathematical value of a [`CycleOutcome`].
pub enum CycleOutcomeSpec {
    Committed { message: Seq<char> },
    NoChanges,
    SkippedDetached,
    Failed { message: Seq<char> },
}

/// How one commit cycle ended.
pub enum CycleOutcome {
    /// Changes were staged and committed with this message.
    Committed { message: String },
    /// The working tree was clean; the cycle was a successful no-op.
    NoChanges,
    /// The working tree is detached; no commit was attempted.
    SkippedDetached,
    /// The engine failed mid-cycle; the message is its trimmed error text.
    Failed { message: String },
}

impl View for CycleOutcome {
    type V = CycleOutcomeSpec;

    open spec fn view(&self) -> CycleOutcomeSpec {
        match self {
            CycleOutcome::Committed { message } => CycleOutcomeSpec::Committed {
                message: message@,
            },
            CycleOutcome::NoChanges => CycleOutcomeSpec::NoChanges,
            CycleOutcome::SkippedDetached => CycleOutcomeSpec::SkippedDetached,
            CycleOutcome::Failed { message } => CycleOutcomeSpec::Failed { message: message@ },
        }
    }
}

/// The mathematical value of a [`CommitCycleState`].
pub enum CycleStateSpec {
    AwaitingDetachedCheck,
    AwaitingStatus,
    AwaitingStage { message: Seq<char> },
    AwaitingCommit { message: Seq<char> },
    Done { outcome: CycleOutcomeSpec },
}

/// The state of one commit cycle: which engine result it is waiting for.
pub enum CommitCycleState {
    /// Waiting for the detachment probe.
    AwaitingDetachedCheck,
    /// Waiting for the change-detection probe.
    AwaitingStatus,
    /// Waiting for staging to finish; the commit message is already fixed.
    AwaitingStage { message: String },
    /// Waiting for the commit itself.
    AwaitingCommit { message: String },
    /// The cycle is over.
    Done { outcome: CycleOutcome },
}

impl View for CommitCycleState {
    type V = CycleStateSpec;

    open spec fn view(&self) -> CycleStateSpec {
        match self {
            CommitCycleState::AwaitingDetachedCheck => CycleStateSpec::AwaitingDetachedCheck,
            CommitCycleState::AwaitingStatus => CycleStateSpec::AwaitingStatus,
            CommitCycleState::AwaitingStage { message } => CycleStateSpec::AwaitingStage {
                message: message@,
            },
            CommitCycleState::AwaitingCommit { message } => CycleStateSpec::AwaitingCommit {
                message: message@,
            },
            CommitCycleState::Done { outcome } => CycleStateSpec::Done { outcome: outcome@ },
        }
    }
}

/// The transition function of one commit cycle: the next state from the
/// result of the command the cycle was waiting for. A failed command ends
/// the cycle with its trimmed error text; the detachment probe printing
/// `HEAD` ends it without a commit; a clean status ends it as a no-op;
/// otherwise the cycle fixes the auto-generated message, stages, and
/// commits. A finished cycle stays finished.
pub open spec fn advance_spec(s: CycleStateSpec, r: GitCommandResultView) -> CycleStateSpec {
    match s {
        CycleStateSpec::AwaitingDetachedCheck => {
            if r.exit_code != 0 {
                CycleStateSpec::Done {
                    outcome: CycleOutcomeSpec::Failed { message: trim_spec(r.stderr) },
                }
            } else if trim_spec(r.stdout) == "HEAD"@ {
                CycleStateSpec::Done { outcome: CycleOutcomeSpec::SkippedDetached }
            } else {
                CycleStateSpec::AwaitingStatus
            }
        },
        CycleStateSpec::AwaitingStatus => {
            if r.exit_code != 0 {
                CycleStateSpec::Done {
                    outcome: CycleOutcomeSpec::Failed { message: trim_spec(r.stderr) },
                }
            } else if status_paths(r.stdout).len() == 0 {
                CycleStateSpec::Done { outcome: CycleOutcomeSpec::NoChanges }
            } else {
                CycleStateSpec::AwaitingStage {
                    message: commit_message_spec(canonical_paths(status_paths(r.stdout)), 10),
                }
            }
        },
        CycleStateSpec::AwaitingStage { message } => {
            if r.exit_code != 0 {
                CycleStateSpec::Done {
                    outcome: CycleOutcomeSpec::Failed { message: trim_spec(r.stderr) },
                }
            } else {
                CycleStateSpec::AwaitingCommit { message }
            }
        },
        CycleStateSpec::AwaitingCommit { message } => {
            if r.exit_code != 0 {
                CycleStateSpec::Done {
                    outcome: CycleOutcomeSpec::Failed { message: trim_spec(r.stderr) },
                }
            } else {
                CycleStateSpec::Done { outcome: CycleOutcomeSpec::Committed { message } }
            }
        },
        CycleStateSpec::Done { outcome } => CycleStateSpec::Done { outcome },
    }
}

/// The engine command a cycle state is waiting for, if any.
pub open spec fn pending_command_spec(s: CycleStateSpec) -> Option<Seq<Seq<char>>> {
    match s {
        CycleStateSpec::AwaitingDetachedCheck => Some(seq!["rev-parse"@, "--abbrev-ref"@, "HEAD"@]),
        CycleStateSpec::AwaitingStatus => Some(seq!["status"@, "--porcelain"@, "-z"@]),
        CycleStateSpec::AwaitingStage { .. } => Some(seq!["add"@, "-A"@]),
        CycleStateSpec::AwaitingCommit { message } => Some(seq!["commit"@, "-m"@, message]),
        CycleStateSpec::Done { .. } => None,
    }
}

impl CommitCycleState {
    /// A fresh cycle, waiting for the detachment probe.
    pub fn start() -> (r: CommitCycleState)
        ensures
            r@ == CycleStateSpec::AwaitingDetachedCheck,
    {
        CommitCycleState::AwaitingDetachedCheck
    }

    /// The arguments of the engine command this state waits for; a
    /// finished cycle waits for nothing.
    pub fn pending_command(&self) -> (r: Option<Vec<String>>)
        ensures
            match r {
                Option::Some(args) => pending_command_spec(self@) == Some(args.deep_view()),
                Option::None => pending_command_spec(self@) is None,
            },
    {
        match self {
            CommitCycleState::AwaitingDetachedCheck => Some(head_check_args()),
            CommitCycleState::AwaitingStatus => Some(status_args()),
            CommitCycleState::AwaitingStage { .. } => Some(add_all_args()),
            CommitCycleState::AwaitingCommit { message } => {
                let args = commit_args(message, false);
                proof {
                    assert(args.deep_view() =~= seq!["commit"@, "-m"@, message@]);
                }
                Some(args)
            },
            CommitCycleState::Done { .. } => None,
        }
    }

    /// Consumes the result of the pending command and moves to the next
    /// state, exactly as `advance_spec` says.
    pub fn advance(self, res: &GitCommandResult) -> (r: CommitCycleState)
        ensures
            r@ == advance_spec(self@, res@),
    {
        match self {
            CommitCycleState::AwaitingDetachedCheck => {
                if res.exit_code != 0 {
                    CommitCycleState::Done {
                        outcome: CycleOutcome::Failed {
                            message: crate::text::trim(res.stderr.as_str()),
                        },
                    }
                } else {
                    let t = crate::text::trim(res.stdout.as_str());
                    if t.eq(&String::from_str("HEAD")) {
                        CommitCycleState::Done { outcome: CycleOutcome::SkippedDetached }
                    } else {
                        CommitCycleState::AwaitingStatus
                    }
                }
            },
            CommitCycleState::AwaitingStatus => {
                if res.exit_code != 0 {
                    CommitCycleState::Done {
                        outcome: CycleOutcome::Failed {
                            message: crate::text::trim(res.stderr.as_str()),
                        },
                    }
                } else {
                    let files = parse_status_output(res.stdout.as_str());
                    proof {
                        if files.deep_view().len() > 0 {
                            assert(files.deep_view().contains(files.deep_view()[0]));
                            assert(status_paths(res@.stdout).contains(files.deep_view()[0]));
                        }
                        if status_paths(res@.stdout).len() > 0 {
                            let ps = status_paths(res@.stdout);
                            assert(ps.contains(ps[0]));
                            assert(files.deep_view().contains(ps[0]));
                        }
                    }
                    if files.len() == 0 {
                        CommitCycleState::Done { outcome: CycleOutcome::NoChanges }
                    } else {
                        let message = format_commit_message(&files, message_file_limit());
                        CommitCycleState::AwaitingStage { message }
                    }
                }
            },
            CommitCycleState::AwaitingStage { message } => {
                if res.exit_code != 0 {
                    CommitCycleState::Done {
                        outcome: CycleOutcome::Failed {
                            message: crate::text::trim(res.stderr.as_str()),
                        },
                    }
                } else {
                    CommitCycleState::AwaitingCommit { message }
                }
            },
            CommitCycleState::AwaitingCommit { message } => {
                if res.exit_code != 0 {
                    CommitCycleState::Done {
                        outcome: CycleOutcome::Failed {
                            message: crate::text::trim(res.stderr.as_str()),
                        },
                    }
                } else {
                    CommitCycleState::Done { outcome: CycleOutcome::Committed { message } }
                }
            },
            CommitCycleState::Done { outcome } => CommitCycleState::Done { outcome },
        }
    }

    /// The cycle's outcome, once it is finished.
    pub fn outcome(&self) -> (r: Option<CycleOutcome>)
        ensures
            match r {
                Option::Some(o) => self@ == (CycleStateSpec::Done { outcome: o@ }),
                Option::None => !(self@ is Done),
            },
    {
        match self {
            CommitCycleState::Done { outcome } => {
                let o = match outcome {
                    CycleOutcome::Committed { message } => CycleOutcome::Committed {
                        message: message.clone(),
                    },
                    CycleOutcome::NoChanges => CycleOutcome::NoChanges,
                    CycleOutcome::SkippedDetached => CycleOutcome::SkippedDetached,
                    CycleOutcome::Failed { message } => CycleOutcome::Failed {
                        message: message.clone(),
                    },
                };
                Some(o)
            },
            _ => None,
        }
    }
}

/// The state a cycle reaches after consuming a sequence of results.
pub open spec fn run_cycle_spec(s: CycleStateSpec, evs: Seq<GitCommandResultView>) -> CycleStateSpec
    decreases evs.len(),
{
    if evs.len() == 0 {
        s
    } else {
        run_cycle_spec(advance_spec(s, evs[0]), evs.drop_first())
    }
}

/// A finished cycle stays finished, whatever results arrive.
pub proof fn lemma_done_absorbs(o: CycleOutcomeSpec, evs: Seq<GitCommandResultView>)
    ensures
        run_cycle_spec(CycleStateSpec::Done { outcome: o }, evs) == (CycleStateSpec::Done {
            outcome: o,
        }),
    decreases evs.len(),
{
    if evs.len() > 0 {
        lemma_done_absorbs(o, evs.drop_first());
    }
}

/// A detached working tree never produces a commit: when the detachment
/// probe reports `HEAD`, the cycle is finished as skipped at once, and no
/// sequence of further results — however many ticks elapse — can carry it
/// to a staging or commit command. Each later tick starts a fresh cycle at
/// the detachment probe again, so the condition must be resolved outside
/// this tool before any commit can happen.
pub proof fn lemma_detached_never_commits(
    first: GitCommandResultView,
    rest: Seq<GitCommandResultView>,
)
    requires
        first.exit_code == 0,
        trim_spec(first.stdout) == "HEAD"@,
    ensures
        run_cycle_spec(CycleStateSpec::AwaitingDetachedCheck, seq![first] + rest) == (
        CycleStateSpec::Done { outcome: CycleOutcomeSpec::SkippedDetached }),
        forall|k: int|
            0 <= k <= rest.len() ==> pending_command_spec(
                #[trigger] run_cycle_spec(
                    CycleStateSpec::AwaitingDetachedCheck,
                    seq![first] + rest.take(k),
                ),
            ) is None,
{
    let skipped = CycleStateSpec::Done { outcome: CycleOutcomeSpec::SkippedDetached };
    assert(advance_spec(CycleStateSpec::AwaitingDetachedCheck, first) == skipped);
    assert forall|k: int| 0 <= k <= rest.len() implies pending_command_spec(
        #[trigger] run_cycle_spec(
            CycleStateSpec::AwaitingDetachedCheck,
            seq![first] + rest.take(k),
        ),
    ) is None by {
        let evs = seq![first] + rest.take(k);
        assert(evs[0] == first);
        assert(evs.drop_first() =~= rest.take(k));
        match skipped {
            CycleStateSpec::Done { outcome } => {
                lemma_done_absorbs(outcome, rest.take(k));
            },
            _ => {},
        }
        assert(run_cycle_spec(CycleStateSpec::AwaitingDetachedCheck, evs) == skipped);
    }
    let evs = seq![first] + rest;
    assert(evs[0] == first);
    assert(evs.drop_first() =~= rest);
    lemma_done_absorbs(CycleOutcomeSpec::SkippedDetached, rest);
}

/// The ordered steps that initialize one target. A directory already
/// owned by the tool only has its identity and ignore state reconciled; a
/// fresh directory gets new metadata, identity, ignore state, and one
/// initial commit, in that order. Any step failing aborts the rest for
/// this target only.
#[derive(Clone, Copy, PartialEq, Eq, Structural, Debug)]
pub enum InitStep {
    /// Create fresh version-control metadata.
    RunInit,
    /// Write the author identity and disable signing.
    EnsureIdentity,
    /// Merge the configured patterns into the target's ignore file.
    MergeGitignore,
    /// Merge the override file's patterns into the persistent excludes.
    MergeExcludes,
    /// Stage everything for the initial commit.
    RunAddAll,
    /// Make the initial commit, empty or not.
    RunInitialCommit,
}

/// The initialization plan for a target with the given ownership.
pub fn init_plan(ownership: RepoOwnership) -> (r: Vec<InitStep>)
    ensures
        ownership == RepoOwnership::Ours ==> r@ =~= seq![
            InitStep::EnsureIdentity,
            InitStep::MergeGitignore,
            InitStep::MergeExcludes,
        ],
        ownership == RepoOwnership::NoRepo ==> r@ =~= seq![
            InitStep::RunInit,
            InitStep::EnsureIdentity,
            InitStep::MergeGitignore,
            InitStep::MergeExcludes,
            InitStep::RunAddAll,
            InitStep::RunInitialCommit,
        ],
{
    let mut v: Vec<InitStep> = Vec::new();
    match ownership {
        RepoOwnership::Ours => {
            v.push(InitStep::EnsureIdentity);
            v.push(InitStep::MergeGitignore);
            v.push(InitStep::MergeExcludes);
        },
        RepoOwnership::NoRepo => {
            v.push(InitStep::RunInit);
            v.push(InitStep::EnsureIdentity);
            v.push(InitStep::MergeGitignore);
            v.push(InitStep::MergeExcludes);
            v.push(InitStep::RunAddAll);
            v.push(InitStep::RunInitialCommit);
        },
    }
    v
}

/// The ignore patterns recorded during a fresh initialization: the tool's
/// own metadata directory is always force-excluded, ahead of the
/// configured patterns.
pub fn init_ignore_patterns(patterns: &Vec<String>) -> (r: Vec<String>)
    ensures
        r.deep_view() =~= seq![".gsd/"@] + patterns.deep_view(),
{
    let mut v: Vec<String> = Vec::new();
    v.push(String::from_str(".gsd/"));
    let mut i: usize = 0;
    while i < patterns.len()
        invariant
            i <= patterns.len(),
            v.deep_view() =~= seq![".gsd/"@] + patterns.deep_view().take(i as int),
        decreases patterns.len() - i,
    {
        let ghost before = v.deep_view();
        v.push(patterns[i].clone());
        proof {
            assert(v.deep_view() =~= before.push(patterns.deep_view()[i as int]));
            assert(v.deep_view() =~= seq![".gsd/"@] + patterns.deep_view().take(i + 1));
        }
        i = i + 1;
    }
    proof {
        assert(patterns.deep_view().take(patterns.len() as int) =~= patterns.deep_view());
    }
    v
}

/// The ignore patterns of one target: the global defaults followed by the
/// target's own patterns.
pub fn merged_ignore_patterns(defaults: &Vec<String>, target_patterns: &Vec<String>) -> (r: Vec<
    String,
>)
    ensures
        r.deep_view() =~= defaults.deep_view() + target_patterns.deep_view(),
{
    let mut v: Vec<String> = Vec::new();
    let mut i: usize = 0;
    while i < defaults.len()
        invariant
            i <= defaults.len(),
            v.deep_view() =~= defaults.deep_view().take(i as int),
        decreases defaults.len() - i,
    {
        let ghost before = v.deep_view();
        v.push(defaults[i].clone());
        proof {
            assert(v.deep_view() =~= before.push(defaults.deep_view()[i as int]));
            assert(v.deep_view() =~= defaults.deep_view().take(i + 1));
        }
        i = i + 1;
    }
    let mut j: usize = 0;
    while j < target_patterns.len()
        invariant
            j <= target_patterns.len(),
            v.deep_view() =~= defaults.deep_view().take(defaults.len() as int)
                + target_patterns.deep_view().take(j as int),
        decreases target_patterns.len() - j,
    {
        let ghost before = v.deep_view();
        v.push(target_patterns[j].clone());
        proof {
            assert(v.deep_view() =~= before.push(target_patterns.deep_view()[j as int]));
            assert(v.deep_view() =~= defaults.deep_view().take(defaults.len() as int)
                + target_patterns.deep_view().take(j + 1));
        }
        j = j + 1;
    }
    proof {
        assert(defaults.deep_view().take(defaults.len() as int) =~= defaults.deep_view());
        assert(target_patterns.deep_view().take(target_patterns.len() as int)
            =~= target_patterns.deep_view());
    }
    v
}

/// An error of the snapshot service as a whole.
#[derive(Debug)]
pub enum SnapshotError {
    /// The engine binary is unavailable; nothing can be scheduled.
    GitNotAvailable,
    /// A protocol error, carried through from the engine.
    Git(crate::git::GitError),
    /// One target's initialization failed; other targets are unaffected.
    TargetInitFailed { id: String, message: String },
}

impl SnapshotError {
    /// A rendering of the error for display.
    pub fn message(&self) -> (r: String)
        ensures
            match self {
                SnapshotError::GitNotAvailable => r@ == "git is not available"@,
                SnapshotError::Git(e) => r@ == "git error: "@ + match e {
                    crate::git::GitError::CommandFailed { message } => "git command failed: "@
                        + message@,
                    crate::git::GitError::NotAvailable => "git is not available"@,
                    crate::git::GitError::Io { message } => "io error: "@ + message@,
                    crate::git::GitError::DetachedHead { path } => "detached HEAD in "@ + path@,
                },
                SnapshotError::TargetInitFailed { id, message } => r@
                    == "target initialization failed for "@ + id@ + ": "@ + message@,
            },
    {
        match self {
            SnapshotError::GitNotAvailable => String::from_str("git is not available"),
            SnapshotError::Git(e) => {
                let mut r = String::from_str("git error: ");
                let inner = e.message();
                r.append(inner.as_str());
                r
            },
            SnapshotError::TargetInitFailed { id, message } => {
                let mut r = String::from_str("target initialization failed for ");
                r.append(id.as_str());
                r.append(": ");
                r.append(message.as_str());
                r
            },
        }
    }
}

} // verus!
