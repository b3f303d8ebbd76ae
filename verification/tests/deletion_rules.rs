use project_application::card_deletion::{
    add_card_bytes, blockers, card_file_id, check_request, check_target, focus_holds, recovery_allowed, CardEdges,
};
use project_application::project_deletion::{check_deletion, check_manifest, path_text, tree_error, workspace_step};
use project_application::registry::FocusRef;
use project_application::reply::{AppError, Reply, ReplyBody, StoreFailure};
use project_application::writer::Recovery;

fn status_code(reply: Option<Reply>) -> Option<(u16, String)> {
    reply.map(|r| match r.body {
        ReplyBody::Error { code, .. } => (r.http_status, code),
        _ => panic!(),
    })
}

fn rejected(e: AppError) -> (u16, String) {
    match e {
        AppError::Rejected(r) => match r.body {
            ReplyBody::Error { code, .. } => (r.http_status, code),
            _ => panic!(),
        },
        _ => panic!("not a rejection"),
    }
}

#[test]
fn deletion_requests_are_checked_in_order() {
    assert_eq!(status_code(check_deletion(false, false, true, true, true, "r")), Some((422, "VALIDATION_FAILED".into())));
    assert_eq!(status_code(check_deletion(true, false, true, true, true, "r")), Some((428, "PRECONDITION_REQUIRED".into())));
    assert_eq!(status_code(check_deletion(true, true, true, true, true, "r")), Some((409, "RECOVERY_REQUIRED".into())));
    assert_eq!(status_code(check_deletion(true, true, false, true, true, "r")), Some((409, "PROJECT_DELETION_PENDING".into())));
    assert_eq!(status_code(check_deletion(true, true, false, false, true, "r")), Some((409, "REGISTRATION_RECOVERY_REQUIRED".into())));
    assert!(check_deletion(true, true, false, false, false, "r").is_none());
}

#[test]
fn tree_failures_become_refusals() {
    assert_eq!(rejected(tree_error(StoreFailure::Invalid { code: "PROJECT_TREE_LIMIT".into() })), (422, "PROJECT_TREE_LIMIT".into()));
    assert_eq!(rejected(tree_error(StoreFailure::Invalid { code: "PROJECT_TREE_SYMLINK".into() })), (409, "PROJECT_TREE_SYMLINK".into()));
    assert_eq!(rejected(tree_error(StoreFailure::Io { kind: "NotFound".into() })), (409, "PROJECT_TREE_CHANGED".into()));
    assert!(matches!(tree_error(StoreFailure::Io { kind: "PermissionDenied".into() }), AppError::Store(StoreFailure::Io { .. })));
    assert!(matches!(tree_error(StoreFailure::Conflict), AppError::Store(StoreFailure::Conflict)));
}

#[test]
fn paths_must_be_utf8() {
    assert_eq!(path_text(b"/home/p").ok(), Some("/home/p".to_owned()));
    assert!(matches!(path_text(&[0x2f, 0xff]), Err(AppError::Invariant(_))));
}

#[test]
fn finishing_writes_the_workspace_once() {
    assert_eq!(workspace_step(b"old", b"old", b"new").ok(), Some(Recovery::Replace));
    assert_eq!(workspace_step(b"new", b"old", b"new").ok(), Some(Recovery::Resync));
    assert_eq!(rejected(workspace_step(b"x", b"old", b"new").err().unwrap()), (409, "WORKSPACE_SOURCE_CHANGED".into()));
}

#[test]
fn resumed_manifests_must_be_the_admitted_ones() {
    assert!(check_manifest("p", "p", Some("v"), "v", "v").is_ok());
    assert!(check_manifest("p", "q", Some("v"), "v", "v").is_err());
    assert!(check_manifest("p", "p", None, "v", "v").is_err());
    assert!(check_manifest("p", "p", Some("v"), "v", "w").is_err());
}

#[test]
fn card_deletions_need_an_empty_payload_and_a_version() {
    assert_eq!(status_code(check_request(false, true, "r")), Some((422, "VALIDATION_FAILED".into())));
    assert_eq!(status_code(check_request(true, false, "r")), Some((428, "PRECONDITION_REQUIRED".into())));
    assert!(check_request(true, true, "r").is_none());
    assert_eq!(status_code(check_target(true, true, "r")), Some((409, "CARD_IN_FOCUS".into())));
    assert_eq!(status_code(check_target(false, true, "r")), Some((409, "PROJECT_ARCHIVED".into())));
    assert!(check_target(false, false, "r").is_none());
}

#[test]
fn focus_is_matched_by_project_and_card() {
    let focus = vec![FocusRef { project_id: "p".into(), card_id: "c".into() }];
    assert!(focus_holds(&focus, "p", "c"));
    assert!(!focus_holds(&focus, "q", "c"));
    assert!(!focus_holds(&focus, "p", "d"));
}

#[test]
fn dependents_block_deletion_up_to_a_hundred() {
    let card = |id: &str, deps: &[&str]| CardEdges { id: id.into(), depends_on: deps.iter().map(|d| d.to_string()).collect() };
    let cards = vec![card("t", &["t"]), card("a", &["t"]), card("b", &["x"]), card("c", &["x", "t"])];
    assert_eq!(blockers(&cards, "t"), vec![1, 3]);
    let many: Vec<CardEdges> = (0..150).map(|n| card(&format!("c{n}"), &["t"])).collect();
    let found = blockers(&many, "t");
    assert_eq!(found.len(), 100);
    assert_eq!(found[99], 99);
}

#[test]
fn card_files_are_named_by_v4_ids() {
    let id = uuid::Uuid::new_v4().to_string();
    assert_eq!(card_file_id(&format!("{id}.md")).map(|r| r.ok()), Some(Some(id.clone())));
    assert!(card_file_id("notes.txt").is_none());
    assert!(matches!(card_file_id("x.md"), Some(Err(_))));
    let v7 = uuid::Uuid::now_v7().to_string();
    assert!(matches!(card_file_id(&format!("{v7}.md")), Some(Err(_))));
}

#[test]
fn card_sets_are_bounded_in_bytes() {
    assert_eq!(add_card_bytes(10, 20).ok(), Some(30));
    assert_eq!(add_card_bytes(64 * 1024 * 1024 - 1, 1).ok(), Some(64 * 1024 * 1024));
    assert_eq!(rejected(add_card_bytes(64 * 1024 * 1024, 1).err().unwrap()), (409, "SOURCE_LIMIT".into()));
    assert!(add_card_bytes(1, usize::MAX).is_err());
}

#[test]
fn recovery_finishes_only_safe_deletions() {
    assert!(recovery_allowed(true, "PATCH", "card", true, true));
    assert!(recovery_allowed(false, "DELETE", "card", false, false));
    assert!(!recovery_allowed(false, "DELETE", "card", true, false));
    assert!(!recovery_allowed(false, "DELETE", "card", false, true));
    assert!(!recovery_allowed(false, "DELETE", "milestone", false, false));
}

#[test]
fn deletions_keep_server_state_and_other_projects() {
    use_scope();
}

fn use_scope() {
    let check = project_application::project_deletion::check_scope;
    assert_eq!(project_application::project_deletion::meta_dir("/home/p"), "/home/p/.project");
    assert_eq!(project_application::project_deletion::meta_dir("/home/p/"), "/home/p/.project");
    let projects = vec![("p1".to_string(), "/home/p".to_string()), ("p2".to_string(), "/home/p/.project/nested".to_string())];
    assert_eq!(rejected(check("/home/p/.project/state", "/home/p", "p1", &vec![]).unwrap_err()), (409, "PROJECT_CONTAINS_SERVER_STATE".into()));
    assert_eq!(rejected(check("/var/state", "/home/p", "p1", &projects).unwrap_err()), (409, "PROJECT_CONTAINS_REGISTERED_PROJECT".into()));
    assert!(check("/var/state", "/home/p", "p2", &vec![("p2".to_string(), "/home/p/.project/x".to_string())]).is_ok());
    assert!(check("/home/p/.projects", "/home/p", "p1", &vec![]).is_ok());
}
