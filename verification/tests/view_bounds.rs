use project_application::clock::{instant, now_millis};
use project_application::views::bounded;

#[test]
fn view_limits_are_positive_and_bounded() {
    assert!(bounded(1, 10).is_ok());
    assert!(bounded(10, 10).is_ok());
    assert!(bounded(0, 10).is_err());
    assert!(bounded(11, 10).is_err());
}

#[test]
fn instants_are_spelled_in_rfc3339_with_milliseconds() {
    assert_eq!(instant(0), "1970-01-01T00:00:00.000Z");
    assert_eq!(instant(1_700_000_000_123), "2023-11-14T22:13:20.123Z");
    assert!(now_millis().unwrap() > 1_600_000_000_000);
}

fn rejected(e: project_application::reply::AppError) -> (u16, String) {
    match e {
        project_application::reply::AppError::Rejected(r) => match r.body {
            project_application::reply::ReplyBody::Error { code, .. } => (r.http_status, code),
            _ => panic!(),
        },
        _ => panic!("not a rejection"),
    }
}

#[test]
fn board_columns_follow_the_status_order() {
    assert_eq!(project_application::views::board_statuses(), vec!["planned", "active", "review", "done", "cancelled"]);
    assert_eq!(project_application::views::column_start("active", "active", 40), 40);
    assert_eq!(project_application::views::column_start("done", "active", 40), 0);
}

#[test]
fn view_cursors_name_their_scope_and_offset() {
    use_offsets();
}

fn use_offsets() {
    let offset = project_application::views::view_offset;
    assert_eq!(offset(None).ok(), Some(0));
    assert_eq!(offset(Some((true, Some(7)))).ok(), Some(7));
    assert_eq!(rejected(offset(Some((false, Some(7)))).unwrap_err()), (409, "PAGE_STALE".into()));
    assert_eq!(rejected(offset(Some((true, None))).unwrap_err()), (400, "INVALID_CURSOR".into()));
    assert_eq!(rejected(offset(Some((true, Some(1u64 << 63)))).unwrap_err()), (400, "INVALID_CURSOR".into()));
    assert!(project_application::views::view_cursor_length(&"c".repeat(4096)).is_ok());
    assert_eq!(rejected(project_application::views::view_cursor_length(&"c".repeat(4097)).unwrap_err()), (400, "INVALID_CURSOR".into()));
}

#[test]
fn calendar_ranges_and_focus_sections_are_bounded() {
    assert!(project_application::views::check_date_range(10, 10).is_ok());
    assert!(project_application::views::check_date_range(0, 399).is_ok());
    assert_eq!(rejected(project_application::views::check_date_range(0, 400).unwrap_err()), (400, "INVALID_DATE_RANGE".into()));
    assert_eq!(rejected(project_application::views::check_date_range(5, 4).unwrap_err()), (400, "INVALID_DATE_RANGE".into()));
    assert!(project_application::views::check_focus_section("motion").is_ok());
    assert!(project_application::views::check_focus_section("events").is_ok());
    assert_eq!(rejected(project_application::views::check_focus_section("cards").unwrap_err()), (400, "INVALID_QUERY".into()));
}

#[test]
fn the_next_page_starts_after_this_one() {
    assert_eq!(project_application::views::next_offset(40, 20, true), Some(60));
    assert_eq!(project_application::views::next_offset(40, 20, false), None);
}

#[test]
fn attention_and_calendar_items_are_named() {
    assert_eq!(project_application::views::attention_id("p1", "c1", "overdue"), "p1:c1:overdue");
    let (kind, id, report) = project_application::views::attention_target("p1", "update", "u1");
    assert_eq!((kind.as_str(), id.as_str(), report.as_deref()), ("project", "p1", Some("u1")));
    let (kind, id, report) = project_application::views::attention_target("p1", "card", "c1");
    assert_eq!((kind.as_str(), id.as_str(), report), ("card", "c1", None));
    assert_eq!(project_application::views::calendar_item_id("c1", "card_due"), "c1:card_due");
}
