use project_application::context::{check_budget, excerpt, list_capacity, MAX_BUDGET, MIN_BUDGET};
use project_application::reply::{AppError, ReplyBody};

fn rejected(e: AppError) -> (u16, String) {
    match e {
        AppError::Rejected(r) => match r.body {
            ReplyBody::Error { code, .. } => (r.http_status, code),
            _ => panic!(),
        },
        _ => panic!("not a rejection"),
    }
}

#[test]
fn context_budgets_are_bounded() {
    assert!(check_budget(MIN_BUDGET).is_ok());
    assert!(check_budget(MAX_BUDGET).is_ok());
    assert_eq!(rejected(check_budget(MIN_BUDGET - 1).unwrap_err()), (400, "INVALID_CONTEXT_BUDGET".into()));
    assert_eq!(rejected(check_budget(MAX_BUDGET + 1).unwrap_err()), (400, "INVALID_CONTEXT_BUDGET".into()));
}

#[test]
fn excerpts_cut_at_character_boundaries() {
    assert_eq!(excerpt("hello", 10), ("hello", false));
    assert_eq!(excerpt("hello", 5), ("hello", false));
    assert_eq!(excerpt("hello", 3), ("hel", true));
    assert_eq!(excerpt("aé", 2), ("a", true));
    assert_eq!(excerpt("aé", 3), ("aé", false));
    assert_eq!(excerpt("€x", 2), ("", true));
}

#[test]
fn lists_take_their_capacity() {
    assert_eq!(list_capacity("warnings"), 100);
    assert_eq!(list_capacity("cards"), 200);
}

#[test]
fn entries_fit_the_budget_and_lists_their_capacity() {
    use_budget();
}

fn use_budget() {
    let c = project_application::context::Counts { included: 2, omitted: 3 };
    let next = c.with_one_more();
    assert_eq!((next.included, next.omitted), (3, 2));
    let empty = project_application::context::Counts { included: 0, omitted: 0 }.with_one_more();
    assert_eq!((empty.included, empty.omitted), (1, 0));
    assert_eq!(project_application::context::entry_budget(4096), 3584);
    assert!(project_application::context::focus_room(2048, 4096));
    assert!(!project_application::context::focus_room(2049, 4096));
    assert!(project_application::context::appended("cards", 199, 3584, 3584));
    assert!(!project_application::context::appended("cards", 200, 10, 3584));
    assert!(!project_application::context::appended("warnings", 100, 10, 3584));
    assert!(!project_application::context::appended("cards", 0, 3585, 3584));
}

#[test]
fn contexts_report_truncation_and_must_fit() {
    let none = vec![project_application::context::Counts { included: 1, omitted: 0 }];
    assert!(!project_application::context::context_truncated(&none, false, false));
    assert!(project_application::context::context_truncated(&none, true, false));
    let some = vec![project_application::context::Counts { included: 1, omitted: 0 }, project_application::context::Counts { included: 0, omitted: 4 }];
    assert!(project_application::context::context_truncated(&some, false, false));
    assert!(project_application::context::check_fits(4096, 4096).is_ok());
    assert_eq!(rejected(project_application::context::check_fits(4097, 4096).unwrap_err()), (422, "CONTEXT_BUDGET_TOO_SMALL".into()));
}

#[test]
fn entries_are_titled_and_excerpted() {
    assert_eq!(project_application::context::entry_title(None, Some("Name"), Some("S")), "Name");
    assert_eq!(project_application::context::entry_title(None, None, None), "");
    assert_eq!(project_application::context::excerpt_limit("update"), 512);
    assert_eq!(project_application::context::excerpt_limit("card"), 1024);
}
