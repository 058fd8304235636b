use gsd::engine::{init_plan, init_ignore_patterns, merged_ignore_patterns, CommitCycleState,
    CycleOutcome, InitStep};
use gsd::excludes::{merge_excludes, merge_gitignore};
use gsd::git::{add_all_args, command_failure, commit_args, gsd_dir_name, gsd_ignore_file_name,
    head_check_args, identity_commands, init_args, ownership_from_marker, parse_detached_head,
    snapshot_dir_args, status_args, GitCommandResult, GitError, RepoOwnership};
use gsd::message::format_commit_message;
use gsd::status::{parse_status_output, status_has_changes};

fn result(stdout: &str, stderr: &str, exit_code: i32) -> GitCommandResult {
    GitCommandResult {
        stdout: stdout.to_string(),
        stderr: stderr.to_string(),
        exit_code,
        truncated: false,
    }
}

#[test]
fn test_format_commit_message() {
    let files = vec!["a.txt".to_string(), "b.txt".to_string()];
    assert_eq!(format_commit_message(&files, 10), "a.txt, b.txt");

    let files: Vec<String> = (0..15).map(|i| format!("file{}.txt", i)).collect();
    let msg = format_commit_message(&files, 10);
    assert!(msg.ends_with("+5 more"));
}

#[test]
fn test_format_commit_message_exact_truncation() {
    let files: Vec<String> = (0..5).map(|i| format!("f{}", i)).collect();
    assert_eq!(format_commit_message(&files, 3), "f0, f1, f2 +2 more");
    assert_eq!(format_commit_message(&files, 5), "f0, f1, f2, f3, f4");
    let none: Vec<String> = vec![];
    assert_eq!(format_commit_message(&none, 10), "");
}

#[test]
fn test_status_rename_keeps_destination() {
    // A rename record is followed by one extra record; only that
    // destination path is retained, and the result is sorted and
    // deduplicated.
    let files = parse_status_output("R  from.txt\0dest.txt\0");
    assert_eq!(files, vec!["dest.txt".to_string()]);
}

#[test]
fn test_status_sorted_and_deduplicated() {
    let files = parse_status_output("?? b.txt\0?? a.txt\0 M a.txt\0");
    assert_eq!(files, vec!["a.txt".to_string(), "b.txt".to_string()]);
}

#[test]
fn test_status_order_independent() {
    let one = parse_status_output("?? b.txt\0?? a.txt\0");
    let two = parse_status_output("?? a.txt\0?? b.txt\0");
    assert_eq!(one, two);
}

#[test]
fn test_status_short_records_ignored() {
    let files = parse_status_output("x\0?? ok.txt\0");
    assert_eq!(files, vec!["ok.txt".to_string()]);
}

#[test]
fn test_status_has_changes() {
    assert!(!status_has_changes(""));
    assert!(status_has_changes("?? a.txt\0"));
}

#[test]
fn test_detached_head_parsing() {
    assert_eq!(parse_detached_head(&result("main\n", "", 0)).unwrap(), false);
    assert_eq!(parse_detached_head(&result("HEAD\n", "", 0)).unwrap(), true);
    let err = parse_detached_head(&result("", "fatal: broken\n", 128)).unwrap_err();
    match err {
        GitError::CommandFailed { message } => assert_eq!(message, "fatal: broken"),
        _ => panic!("wrong error variant"),
    }
}

#[test]
fn test_command_failure_classification() {
    assert!(command_failure(&result("", "", 0)).is_none());
    match command_failure(&result("", "  boom \n", 1)) {
        Some(GitError::CommandFailed { message }) => assert_eq!(message, "boom"),
        _ => panic!("expected a command failure"),
    }
}

#[test]
fn test_error_messages() {
    let e = command_failure(&result("", "boom\n", 1)).unwrap();
    assert_eq!(e.message(), "git command failed: boom");
    let detached = GitError::DetachedHead { path: "/tmp/a".to_string() };
    assert_eq!(detached.message(), "detached HEAD in /tmp/a");
    assert_eq!(GitError::NotAvailable.message(), "git is not available");
}

#[test]
fn test_commit_cycle_commits_changes() {
    let cycle = CommitCycleState::start();
    assert_eq!(cycle.pending_command().unwrap(), head_check_args());

    let cycle = cycle.advance(&result("main\n", "", 0));
    assert_eq!(cycle.pending_command().unwrap(), status_args());

    let cycle = cycle.advance(&result("?? b.txt\0?? a.txt\0", "", 0));
    assert_eq!(cycle.pending_command().unwrap(), add_all_args());

    let cycle = cycle.advance(&result("", "", 0));
    let expected_commit = commit_args(&"a.txt, b.txt".to_string(), false);
    assert_eq!(cycle.pending_command().unwrap(), expected_commit);

    let cycle = cycle.advance(&result("", "", 0));
    assert!(cycle.pending_command().is_none());
    match cycle.outcome().unwrap() {
        CycleOutcome::Committed { message } => assert_eq!(message, "a.txt, b.txt"),
        _ => panic!("expected a commit"),
    }
}

#[test]
fn test_commit_cycle_no_changes() {
    let cycle = CommitCycleState::start()
        .advance(&result("main\n", "", 0))
        .advance(&result("", "", 0));
    assert!(matches!(cycle.outcome().unwrap(), CycleOutcome::NoChanges));
}

#[test]
fn test_detached_never_commits() {
    // However many results arrive after the detachment probe reported
    // HEAD, the cycle stays finished and never asks for a commit.
    let mut cycle = CommitCycleState::start().advance(&result("HEAD\n", "", 0));
    assert!(matches!(cycle.outcome().unwrap(), CycleOutcome::SkippedDetached));
    for _ in 0..5 {
        assert!(cycle.pending_command().is_none());
        cycle = cycle.advance(&result("?? a.txt\0", "", 0));
        assert!(matches!(cycle.outcome().unwrap(), CycleOutcome::SkippedDetached));
    }
}

#[test]
fn test_commit_cycle_failure_carries_stderr() {
    let cycle = CommitCycleState::start().advance(&result("", " fatal: no repo \n", 128));
    match cycle.outcome().unwrap() {
        CycleOutcome::Failed { message } => assert_eq!(message, "fatal: no repo"),
        _ => panic!("expected a failure"),
    }
}

#[test]
fn test_command_arguments() {
    assert_eq!(snapshot_dir_args(), vec!["--git-dir=.gsd", "--work-tree=."]);
    assert_eq!(status_args(), vec!["status", "--porcelain", "-z"]);
    assert_eq!(head_check_args(), vec!["rev-parse", "--abbrev-ref", "HEAD"]);
    assert_eq!(add_all_args(), vec!["add", "-A"]);
    assert_eq!(init_args(), vec!["init"]);
    assert_eq!(
        commit_args(&"msg".to_string(), true),
        vec!["commit", "-m", "msg", "--allow-empty"]
    );
    let ids = identity_commands(&"Test".to_string(), &"test@test.com".to_string());
    assert_eq!(ids[0], vec!["config", "user.name", "Test"]);
    assert_eq!(ids[1], vec!["config", "user.email", "test@test.com"]);
    assert_eq!(ids[2], vec!["config", "commit.gpgsign", "false"]);
    assert_eq!(gsd_dir_name(), ".gsd");
    assert_eq!(gsd_ignore_file_name(), ".gsdignore");
}

#[test]
fn test_ownership_classification() {
    assert_eq!(ownership_from_marker(true), RepoOwnership::Ours);
    assert_eq!(ownership_from_marker(false), RepoOwnership::NoRepo);
}

#[test]
fn test_init_plan_steps() {
    assert_eq!(
        init_plan(RepoOwnership::Ours),
        vec![InitStep::EnsureIdentity, InitStep::MergeGitignore, InitStep::MergeExcludes]
    );
    assert_eq!(
        init_plan(RepoOwnership::NoRepo),
        vec![
            InitStep::RunInit,
            InitStep::EnsureIdentity,
            InitStep::MergeGitignore,
            InitStep::MergeExcludes,
            InitStep::RunAddAll,
            InitStep::RunInitialCommit,
        ]
    );
}

#[test]
fn test_init_ignore_patterns_force_exclude_metadata() {
    let patterns = vec!["*.tmp".to_string()];
    assert_eq!(init_ignore_patterns(&patterns), vec![".gsd/".to_string(), "*.tmp".to_string()]);
    let merged = merged_ignore_patterns(&vec!["*.db-wal".to_string()], &patterns);
    assert_eq!(merged, vec!["*.db-wal".to_string(), "*.tmp".to_string()]);
}

#[test]
fn test_merge_gitignore_appends_missing_patterns() {
    let patterns = vec![".gsd/".to_string(), "*.tmp".to_string()];
    assert_eq!(merge_gitignore("", &patterns).unwrap(), ".gsd/\n*.tmp\n");
    assert_eq!(merge_gitignore(".gsd/\n", &patterns).unwrap(), ".gsd/\n*.tmp\n");
    assert_eq!(merge_gitignore("no-newline", &patterns).unwrap(), "no-newline\n.gsd/\n*.tmp\n");
    assert!(merge_gitignore(".gsd/\n*.tmp\n", &patterns).is_none());
    assert!(merge_gitignore("anything\n", &vec![]).is_none());
}

#[test]
fn test_merge_gitignore_idempotent_over_messy_patterns() {
    // Patterns with surrounding whitespace, embedded line breaks, or no
    // content at all are recorded in cleaned form, so a second merge on
    // the produced text writes nothing.
    let patterns = vec![" *.tmp ".to_string(), "".to_string(), "a\nb".to_string()];
    let first = merge_gitignore("", &patterns).unwrap();
    assert_eq!(first, "*.tmp\na\nb\n");
    assert!(merge_gitignore(&first, &patterns).is_none());
    // All-blank patterns never write.
    assert!(merge_gitignore("kept\n", &vec!["  ".to_string()]).is_none());
}

#[test]
fn test_merge_excludes_appends_override_patterns() {
    let merged = merge_excludes("", "*.log\nsecrets/\n", "").unwrap();
    assert_eq!(merged, "# From .gsdignore\n*.log\nsecrets/\n");
    assert!(merged.contains("*.log"));
    assert!(merged.contains("secrets/"));
}

#[test]
fn test_merge_excludes_is_append_only_and_deduplicates() {
    let first = merge_excludes("*.log\n", "secrets/\n# comment\n", "").unwrap();
    assert_eq!(first, "# From .gsdignore\n*.log\nsecrets/\n");
    // A second merge with the same inputs finds everything recorded.
    assert!(merge_excludes("*.log\n", "secrets/\n# comment\n", &first).is_none());
    // Blank override text never writes.
    assert!(merge_excludes("", "  \n", "existing\n").is_none());
}
