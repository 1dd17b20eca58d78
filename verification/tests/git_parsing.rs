use term_sessions::git::{
    checkout_target, commit_message_ok, branch_name_ok, is_git_repo, parse_branches,
    parse_head_ref, parse_log, parse_status,
};

#[test]
fn status_separates_staged_unstaged_untracked() {
    let out = "M  staged.rs\n M worktree.rs\n?? new.txt\nA  added.rs\n";
    let st = parse_status(out);
    assert_eq!(st.staged.len(), 2);
    assert_eq!(st.staged[0].path.as_str(), "staged.rs");
    assert_eq!(st.staged[0].status.as_str(), "M");
    assert!(st.staged[0].staged);
    assert_eq!(st.staged[1].path.as_str(), "added.rs");
    assert_eq!(st.staged[1].status.as_str(), "A");

    assert_eq!(st.unstaged.len(), 1);
    assert_eq!(st.unstaged[0].path.as_str(), "worktree.rs");
    assert_eq!(st.unstaged[0].status.as_str(), "M");
    assert!(!st.unstaged[0].staged);

    assert_eq!(st.untracked.len(), 1);
    assert_eq!(st.untracked[0].path.as_str(), "new.txt");
    assert_eq!(st.untracked[0].status.as_str(), "?");
    assert!(!st.untracked[0].staged);

    assert!(!st.has_conflicts);
}

#[test]
fn status_wait_line_with_mm_both_columns() {
    let st = parse_status("MM both.rs\n");
    assert_eq!(st.staged.len(), 1);
    assert_eq!(st.unstaged.len(), 1);
    assert_eq!(st.staged[0].path.as_str(), "both.rs");
    assert_eq!(st.unstaged[0].path.as_str(), "both.rs");
}

#[test]
fn status_detects_conflicts() {
    let st = parse_status("UU conflicted.rs\n");
    assert!(st.has_conflicts);
}

#[test]
fn status_skips_short_lines_and_empty_output() {
    let st = parse_status("\nx\n");
    assert!(st.staged.is_empty());
    assert!(st.unstaged.is_empty());
    assert!(st.untracked.is_empty());
    let st2 = parse_status("");
    assert!(st2.staged.is_empty() && !st2.has_conflicts);
}

#[test]
fn branches_classifies_local_remote_and_current() {
    let out = "* main\n  feature/x\n  remotes/origin/main\n  remotes/origin/HEAD -> origin/main\n";
    let b = parse_branches(out);
    assert_eq!(b.current.as_str(), "main");
    assert_eq!(b.local.len(), 2);
    assert_eq!(b.local[0].name.as_str(), "main");
    assert!(b.local[0].is_current);
    assert!(!b.local[0].is_remote);
    assert_eq!(b.local[1].name.as_str(), "feature/x");
    assert!(!b.local[1].is_current);
    assert_eq!(b.remote.len(), 1);
    assert_eq!(b.remote[0].name.as_str(), "origin/main");
    assert!(b.remote[0].is_remote);
    assert!(!b.remote[0].is_current);
}

#[test]
fn branches_skip_a_detached_head_line() {
    let b = parse_branches("* (HEAD detached at 1a2b3c)\n  main\n");
    assert_eq!(b.current.as_str(), "");
    assert_eq!(b.local.len(), 1);
    assert_eq!(b.local[0].name.as_str(), "main");
    assert!(b.remote.is_empty());
}

#[test]
fn log_splits_four_fields_and_keeps_extra_bars_in_date() {
    let out = "abc123|fix: a|b thing|Ann Author|2 days ago\nbad line\n";
    let commits = parse_log(out);
    assert_eq!(commits.len(), 1);
    assert_eq!(commits[0].hash.as_str(), "abc123");
    assert_eq!(commits[0].message.as_str(), "fix: a");
    assert_eq!(commits[0].author.as_str(), "b thing");
    assert_eq!(commits[0].date.as_str(), "Ann Author|2 days ago");
}

#[test]
fn log_empty_output_gives_no_commits() {
    assert!(parse_log("").is_empty());
}

#[test]
fn head_ref_branch_and_detached() {
    assert_eq!(
        parse_head_ref("ref: refs/heads/main\n").as_str(),
        "main"
    );
    assert_eq!(
        parse_head_ref("0123456789abcdef0123456789abcdef01234567\n").as_str(),
        "0123456"
    );
}

#[test]
fn commit_and_branch_name_checks() {
    assert!(!commit_message_ok("   \n\t"));
    assert!(commit_message_ok("fix the bug"));
    assert!(!branch_name_ok(""));
    assert!(branch_name_ok("feature/y"));
}

#[test]
fn checkout_strips_origin_prefix() {
    assert_eq!(checkout_target("origin/main"), "main");
    assert_eq!(checkout_target("main"), "main");
    assert_eq!(checkout_target("feature/origin"), "feature/origin");
}

#[test]
fn git_repo_probe_passthrough() {
    assert!(is_git_repo(true));
    assert!(!is_git_repo(false));
}
