use project_application::history::{can_undo, changed_fields, cursor_row, insert_sorted, undo_source, Field, MAX_FIELDS};
use project_application::reply::{AppError, ReplyBody};

fn rejected(e: AppError) -> (u16, String) {
    match e {
        AppError::Rejected(r) => match r.body {
            ReplyBody::Error { code, .. } => (r.http_status, code),
            _ => panic!(),
        },
        _ => panic!("not a rejection"),
    }
}

fn field(name: &str, value: &str) -> Field {
    Field { name: name.into(), value: value.into() }
}

#[test]
fn history_cursors_name_their_page() {
    assert_eq!(cursor_row(true, Some(17)).ok(), Some(17));
    assert_eq!(rejected(cursor_row(false, Some(17)).unwrap_err()), (409, "PAGE_STALE".into()));
    assert_eq!(rejected(cursor_row(true, None).unwrap_err()), (400, "INVALID_CURSOR".into()));
}

#[test]
fn sorted_sets_keep_byte_order_without_duplicates() {
    let mut set: Vec<String> = Vec::new();
    for name in ["title", "body", "status", "body", "Zeta"] {
        insert_sorted(&mut set, name);
    }
    assert_eq!(set, vec!["Zeta", "body", "status", "title"]);
}

#[test]
fn changed_fields_are_listed_in_byte_order() {
    let before = vec![field("title", "\"A\""), field("status", "\"open\""), field("owner", "\"x\"")];
    let after = vec![field("title", "\"B\""), field("status", "\"open\""), field("due", "\"2026-01-01\"")];
    assert_eq!(changed_fields(Some(&before), Some(&after), true), vec!["body", "due", "owner", "title"]);
    assert_eq!(changed_fields(Some(&before), Some(&before), false), Vec::<String>::new());
    let stamped = vec![field("updated_at", "\"1\""), field("title", "\"A\"")];
    let restamped = vec![field("updated_at", "\"2\""), field("title", "\"A\"")];
    assert_eq!(changed_fields(Some(&stamped), Some(&restamped), false), Vec::<String>::new());
}

#[test]
fn a_created_document_changes_every_field() {
    let after = vec![field("title", "\"A\""), field("kind", "\"card\"")];
    assert_eq!(changed_fields(None, Some(&after), true), vec!["body", "kind", "title"]);
    assert_eq!(changed_fields(Some(&after), None, false), vec!["kind", "title"]);
}

#[test]
fn changed_fields_are_bounded() {
    let before: Vec<Field> = (0..150).map(|i| field(&format!("f{i:03}"), "1")).collect();
    let after: Vec<Field> = (0..150).map(|i| field(&format!("f{i:03}"), "2")).collect();
    let listed = changed_fields(Some(&before), Some(&after), false);
    assert_eq!(listed.len(), MAX_FIELDS);
    assert_eq!(listed[0], "f000");
    assert_eq!(listed[99], "f099");
}

#[test]
fn undo_needs_an_unchanged_replaced_version() {
    assert!(can_undo(true, false, "v2", "v2"));
    assert!(!can_undo(false, false, "v2", "v2"));
    assert!(!can_undo(true, true, "v2", "v2"));
    assert!(!can_undo(true, false, "v2", "v3"));
    assert_eq!(undo_source(Some((Some(b"old".to_vec()), "v2".into())), "v2").ok(), Some(b"old".to_vec()));
    assert_eq!(rejected(undo_source(None, "v2").unwrap_err()), (404, "HISTORY_NOT_FOUND".into()));
    assert_eq!(rejected(undo_source(Some((Some(b"old".to_vec()), "v2".into())), "v3").unwrap_err()), (409, "UNDO_TARGET_CHANGED".into()));
    assert_eq!(rejected(undo_source(Some((None, "v2".into())), "v2").unwrap_err()), (409, "UNDO_CREATE_NOT_SUPPORTED".into()));
}
