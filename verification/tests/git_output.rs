use project_application::git::{
    budget_after, code_path, commit_id, conflicted_paths, git_marker, read_step, staged_paths, start_check, text, MAX_OUTPUT,
};

#[test]
fn absent_output_stays_absent() {
    assert_eq!(text(None), Ok(None));
}

#[test]
fn trailing_line_feeds_are_trimmed() {
    assert_eq!(text(Some(b"main\n\n".to_vec())), Ok(Some("main".to_owned())));
    assert_eq!(text(Some(b"a\nb\n".to_vec())), Ok(Some("a\nb".to_owned())));
    assert_eq!(text(Some(b"\n".to_vec())), Ok(Some(String::new())));
}

#[test]
fn invalid_utf8_output_is_refused() {
    assert_eq!(text(Some(vec![0xff, 0xfe])), Err("GIT_INVALID_OUTPUT"));
}

#[test]
fn metadata_paths_are_not_code() {
    assert!(!code_path(b".project"));
    assert!(!code_path(b".project/cards/a.md"));
    assert!(code_path(b".projects"));
    assert!(code_path(b"src/main.rs"));
    assert!(code_path(b".proj"));
}

#[test]
fn worktree_markers_start_with_gitdir() {
    assert!(git_marker(b"gitdir: /repo/.git/worktrees/a\n"));
    assert!(!git_marker(b"gitdir:/repo"));
    let mut long = b"gitdir: ".to_vec();
    long.extend(std::iter::repeat(b'a').take(4096));
    assert!(!git_marker(&long));
}

#[test]
fn commit_ids_are_forty_or_sixty_four_hex_digits() {
    assert!(commit_id(&"a".repeat(40)));
    assert!(commit_id(&"F0".repeat(32)));
    assert!(!commit_id(&"a".repeat(41)));
    assert!(!commit_id(&format!("{}g", "a".repeat(39))));
}

#[test]
fn staged_paths_count_non_empty_code_entries() {
    assert_eq!(staged_paths(b"src/a.rs\0.project/x.md\0\0README.md\0"), 2);
    assert_eq!(staged_paths(b""), 0);
}

#[test]
fn conflicted_paths_are_counted_once() {
    let out = b"100644 abc 1\tsrc/a.rs\0100644 def 2\tsrc/a.rs\0100644 123 3\t.project/p.md\0garbage\0";
    assert_eq!(conflicted_paths(out), 1);
    assert_eq!(conflicted_paths(b""), 0);
}

#[test]
fn head_must_name_a_branch_or_a_valid_commit() {
    let commit = Some("a".repeat(40));
    assert!(project_application::git::check_head(&None, &commit).is_ok());
    assert!(project_application::git::check_head(&Some("main".into()), &None).is_ok());
    assert_eq!(project_application::git::check_head(&None, &None), Err("GIT_HEAD_UNAVAILABLE"));
    assert_eq!(project_application::git::check_head(&Some("main".into()), &Some("xyz".into())), Err("GIT_INVALID_OUTPUT"));
}

#[test]
fn git_output_is_bounded_by_budget_and_deadline() {
    assert_eq!(start_check(true), Err("GIT_TIMEOUT"));
    assert_eq!(start_check(false), Ok(()));
    assert_eq!(read_step(0, 10, 1, false), Err("GIT_OUTPUT_LIMIT"));
    assert_eq!(read_step(0, 10, 1, true), Err("GIT_OUTPUT_LIMIT"));
    assert_eq!(read_step(5, 0, 10, true), Err("GIT_TIMEOUT"));
    assert_eq!(read_step(5, 5, 10, false), Ok(10));
    assert_eq!(budget_after(MAX_OUTPUT, 100), MAX_OUTPUT - 100);
    assert_eq!(MAX_OUTPUT, 2 * 1024 * 1024);
}
