use project_application::registry::{
    drop_focus, find_registration, register, relocate, unregister, FocusRef, Registration,
};
use project_application::reply::{AppError, ReplyBody};

fn reg(id: &str, path: &str) -> Registration {
    Registration { project_id: id.into(), path: path.into(), added_at: "t0".into() }
}

fn code(e: AppError) -> (u16, String) {
    match e {
        AppError::Rejected(r) => match r.body {
            ReplyBody::Error { code, .. } => (r.http_status, code),
            _ => panic!(),
        },
        _ => panic!(),
    }
}

fn pairs(v: &[Registration]) -> Vec<(String, String)> {
    v.iter().map(|r| (r.project_id.clone(), r.path.clone())).collect()
}

#[test]
fn registering_adds_once() {
    let mut v = vec![reg("a", "/a")];
    assert!(register(&mut v, "b", "/b", "t1").is_ok());
    assert_eq!(pairs(&v), vec![("a".into(), "/a".into()), ("b".into(), "/b".into())]);
    assert_eq!(v[1].added_at, "t1");
    assert!(register(&mut v, "b", "/b", "t2").is_ok());
    assert_eq!(v.len(), 2);
    assert_eq!(v[1].added_at, "t1");
}

#[test]
fn conflicting_pairs_are_refused() {
    let mut v = vec![reg("a", "/a")];
    assert_eq!(code(register(&mut v, "a", "/other", "t").err().unwrap()), (409, "REGISTRATION_ID_PATH_CONFLICT".into()));
    assert_eq!(code(register(&mut v, "z", "/a", "t").err().unwrap()), (409, "REGISTRATION_ID_PATH_CONFLICT".into()));
    assert_eq!(v.len(), 1);
}

#[test]
fn unregistering_removes_the_project_and_its_focus() {
    let mut v = vec![reg("a", "/a"), reg("b", "/b"), reg("c", "/c")];
    unregister(&mut v, "b");
    assert_eq!(pairs(&v), vec![("a".into(), "/a".into()), ("c".into(), "/c".into())]);
    let mut focus = vec![
        FocusRef { project_id: "b".into(), card_id: "1".into() },
        FocusRef { project_id: "a".into(), card_id: "2".into() },
    ];
    drop_focus(&mut focus, "b");
    assert_eq!(focus.len(), 1);
    assert_eq!(focus[0].card_id, "2");
}

#[test]
fn relocation_moves_one_project_to_a_free_path() {
    let mut v = vec![reg("a", "/a"), reg("b", "/b")];
    assert!(relocate(&mut v, "a", "/new").is_ok());
    assert_eq!(pairs(&v), vec![("a".into(), "/new".into()), ("b".into(), "/b".into())]);
    assert_eq!(code(relocate(&mut v, "a", "/b").err().unwrap()), (409, "PATH_ALREADY_REGISTERED".into()));
    assert_eq!(code(relocate(&mut v, "x", "/y").err().unwrap()), (404, "PROJECT_NOT_REGISTERED".into()));
    assert_eq!(find_registration(&v, "b").ok(), Some(1));
}
