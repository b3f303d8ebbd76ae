use project_application::reply::{AppError, ReplyBody};
use project_application::roots::{check_new_root, check_root_identity, child_relative, find_root, listed, relative_parts, Root, MAX_ROOTS};

fn rejected(e: AppError) -> (u16, String) {
    match e {
        AppError::Rejected(r) => match r.body {
            ReplyBody::Error { code, .. } => (r.http_status, code),
            _ => panic!(),
        },
        _ => panic!("not a rejection"),
    }
}

fn root(id: &str, path: &str, identity: (u64, u64)) -> Root {
    Root { id: id.into(), display_path: path.into(), identity }
}

#[test]
fn relative_paths_descend_without_climbing() {
    assert_eq!(relative_parts("").ok(), Some(vec![]));
    assert_eq!(relative_parts(".").ok(), Some(vec![]));
    assert_eq!(relative_parts("a/b").ok(), Some(vec!["a".to_owned(), "b".to_owned()]));
    for bad in ["/abs", "a/../b", "a//b", "a/./b", "a\\b", "..", "a/"] {
        assert_eq!(rejected(relative_parts(bad).unwrap_err()), (400, "INVALID_RELATIVE_PATH".into()), "{bad}");
    }
    let long = "a".repeat(4097);
    assert_eq!(rejected(relative_parts(&long).unwrap_err()), (400, "INVALID_RELATIVE_PATH".into()));
    assert!(relative_parts(&"a".repeat(4096)).is_ok());
}

#[test]
fn new_roots_are_unique_and_bounded() {
    let roots = vec![root("r1", "/home/a", (1, 2))];
    assert!(check_new_root(&roots, "/home/b", (1, 3)).is_ok());
    assert_eq!(rejected(check_new_root(&roots, "/home/a", (9, 9)).unwrap_err()), (409, "ROOT_ALREADY_EXISTS".into()));
    assert_eq!(rejected(check_new_root(&roots, "/home/c", (1, 2)).unwrap_err()), (409, "ROOT_ALREADY_EXISTS".into()));
    let full: Vec<Root> = (0..MAX_ROOTS as u64).map(|i| root(&format!("r{i}"), &format!("/d{i}"), (0, i))).collect();
    assert_eq!(rejected(check_new_root(&full, "/new", (5, 5)).unwrap_err()), (409, "ROOT_LIMIT_REACHED".into()));
}

#[test]
fn roots_are_found_by_id_and_identity() {
    let roots = vec![root("r1", "/a", (1, 2)), root("r2", "/b", (3, 4))];
    assert_eq!(find_root(&roots, "r2").ok(), Some(1));
    assert_eq!(rejected(find_root(&roots, "r3").unwrap_err()), (404, "ROOT_NOT_FOUND".into()));
    assert!(check_root_identity((3, 4), (3, 4)).is_ok());
    assert_eq!(rejected(check_root_identity((3, 5), (3, 4)).unwrap_err()), (409, "ROOT_CHANGED".into()));
}

#[test]
fn browses_hide_dot_names_and_resume_after_the_cursor() {
    assert!(listed("src", None));
    assert!(!listed(".git", None));
    assert!(listed("tests", Some("src")));
    assert!(!listed("src", Some("src")));
    assert!(!listed("app", Some("src")));
    assert_eq!(child_relative("", "a"), "a");
    assert_eq!(child_relative(".", "a"), "a");
    assert_eq!(child_relative("x/y", "a"), "x/y/a");
}
