use project_application::query::{
    availability, check_query, cursor_length_ok, cursor_offset, freshness, mark_rows, page_cut, relative_path,
    search_match, Query, RowStatus,
};
use project_application::reply::{AppError, ReplyBody};

fn empty_query() -> Query {
    Query {
        project: None,
        status: None,
        priority: None,
        label: None,
        milestone_id: None,
        target_type: None,
        target_id: None,
        archived: None,
        search: None,
        cursor: None,
        limit: None,
    }
}

fn code_of(error: AppError) -> (u16, String) {
    match error {
        AppError::Rejected(reply) => match reply.body {
            ReplyBody::Error { code, .. } => (reply.http_status, code),
            _ => panic!("not an error body"),
        },
        _ => panic!("not a rejection"),
    }
}

#[test]
fn default_page_size_is_fifty() {
    assert_eq!(check_query(None, &empty_query(), 200).ok(), Some(50));
}

#[test]
fn page_size_must_be_positive_and_bounded() {
    let mut q = empty_query();
    q.limit = Some(0);
    assert_eq!(code_of(check_query(None, &q, 200).err().unwrap()), (422, "QUERY_LIMIT".to_owned()));
    q.limit = Some(201);
    assert_eq!(code_of(check_query(None, &q, 200).err().unwrap()), (422, "QUERY_LIMIT".to_owned()));
    q.limit = Some(200);
    assert_eq!(check_query(None, &q, 200).ok(), Some(200));
}

#[test]
fn long_searches_are_refused() {
    let mut q = empty_query();
    q.search = Some("é".repeat(257));
    assert_eq!(code_of(check_query(None, &q, 200).err().unwrap()), (422, "QUERY_LIMIT".to_owned()));
    q.search = Some("é".repeat(256));
    assert!(check_query(None, &q, 200).is_ok());
}

#[test]
fn target_filters_need_a_canonical_card_id() {
    let id = uuid::Uuid::new_v4().to_string();
    let mut q = empty_query();
    q.target_type = Some("card".to_owned());
    assert_eq!(code_of(check_query(Some("update"), &q, 200).err().unwrap()), (422, "INVALID_TARGET_FILTER".to_owned()));
    q.target_id = Some(id.clone());
    assert!(check_query(Some("update"), &q, 200).is_ok());
    assert_eq!(code_of(check_query(Some("card"), &q, 200).err().unwrap()), (422, "INVALID_TARGET_FILTER".to_owned()));
    q.target_id = Some(id.to_uppercase());
    assert_eq!(code_of(check_query(Some("update"), &q, 200).err().unwrap()), (422, "INVALID_TARGET_FILTER".to_owned()));
    q.target_id = Some(id);
    q.target_type = Some("update".to_owned());
    assert_eq!(code_of(check_query(Some("update"), &q, 200).err().unwrap()), (422, "INVALID_TARGET_FILTER".to_owned()));
}

#[test]
fn search_words_become_prefix_terms() {
    assert_eq!(search_match("plan  road"), Some("\"plan\"* AND \"road\"*".to_owned()));
    assert_eq!(search_match("say \"hi\""), Some("\"say\"* AND \"\"\"hi\"\"\"*".to_owned()));
    assert_eq!(search_match(" \t\u{3000} "), None);
    assert_eq!(search_match("one"), Some("\"one\"*".to_owned()));
}

#[test]
fn cursors_are_bounded_and_checked() {
    assert!(cursor_length_ok(&"x".repeat(4096)).is_ok());
    assert_eq!(code_of(cursor_length_ok(&"x".repeat(4097)).err().unwrap()), (422, "INVALID_CURSOR".to_owned()));
    assert_eq!(code_of(cursor_offset(false, true, Some(3)).err().unwrap()), (409, "CURSOR_STALE".to_owned()));
    assert_eq!(code_of(cursor_offset(true, true, Some(-1)).err().unwrap()), (422, "INVALID_CURSOR".to_owned()));
    assert_eq!(code_of(cursor_offset(true, true, None).err().unwrap()), (422, "INVALID_CURSOR".to_owned()));
    assert_eq!(cursor_offset(true, true, Some(7)).ok(), Some(7));
}

#[test]
fn pages_keep_the_limit_and_point_past_it() {
    let cut = page_cut(51, 50, 100);
    assert!(cut.more);
    assert_eq!(cut.keep, 50);
    assert_eq!(cut.next_offset, Some(150));
    let cut = page_cut(50, 50, 100);
    assert!(!cut.more);
    assert_eq!(cut.keep, 50);
    assert_eq!(cut.next_offset, None);
}

#[test]
fn documents_have_relative_paths() {
    assert_eq!(relative_path("project", "p"), "project.md");
    assert_eq!(relative_path("card", "abc"), "cards/abc.md");
}

#[test]
fn validity_reads_as_availability() {
    assert_eq!(availability("valid"), "ready");
    assert_eq!(availability("unavailable"), "unavailable");
    assert_eq!(availability("invalid"), "invalid");
    assert_eq!(availability("stale"), "stale");
    assert_eq!(availability("other"), "stale");
}

#[test]
fn rows_of_pending_projects_read_as_stale() {
    let mut rows = vec![
        RowStatus { project_id: "a".into(), validity: "valid".into() },
        RowStatus { project_id: "b".into(), validity: "valid".into() },
        RowStatus { project_id: "a".into(), validity: "invalid".into() },
    ];
    mark_rows(&mut rows, &vec!["a".to_owned()]);
    let v: Vec<&str> = rows.iter().map(|r| r.validity.as_str()).collect();
    assert_eq!(v, vec!["stale", "valid", "invalid"]);
    assert_eq!(freshness(false, &rows), "stale");
    let ok = vec![RowStatus { project_id: "b".into(), validity: "valid".into() }];
    assert_eq!(freshness(false, &ok), "index_snapshot");
    assert_eq!(freshness(true, &ok), "stale");
}

#[test]
fn documents_are_searched_by_their_text_fields() {
    let acceptance = vec![Some("first".to_string()), None, Some("third".to_string())];
    let text = project_application::query::search_text("body", &Some("result".into()), &None, &acceptance);
    assert_eq!(text, "body\nresult\nfirst\nthird");
    assert_eq!(project_application::query::search_text("", &None, &None, &vec![]), "");
}

#[test]
fn summaries_fall_back_to_unavailable() {
    use_title();
}

fn use_title() {
    let title = project_application::query::summary_title;
    assert_eq!(title(Some("T"), Some("N"), Some("S")), "T");
    assert_eq!(title(None, Some("N"), Some("S")), "N");
    assert_eq!(title(None, None, Some("S")), "S");
    assert_eq!(title(None, None, None), "Unavailable");
}

#[test]
fn acceptance_progress_counts_completed_items() {
    assert_eq!(project_application::query::acceptance_progress(&vec![true, false, true]), (3, 2));
    assert_eq!(project_application::query::acceptance_progress(&vec![]), (0, 0));
}

fn target_filter_cases() {
    let mut valid = empty_query();
    valid.target_type = Some("card".into());
    valid.target_id = Some(uuid::Uuid::new_v4().to_string());
    let mut no_type = empty_query();
    no_type.target_id = valid.target_id.clone();
    let mut no_id = empty_query();
    no_id.target_type = Some("card".into());
    let mut update_type = empty_query();
    update_type.target_type = Some("update".into());
    update_type.target_id = valid.target_id.clone();
    let mut v7_id = empty_query();
    v7_id.target_type = Some("card".into());
    v7_id.target_id = Some(uuid::Uuid::now_v7().to_string());
    let cases: Vec<(Option<&str>, &Query)> = vec![
        (Some("card"), &valid),
        (None, &valid),
        (Some("update"), &no_type),
        (Some("update"), &no_id),
        (Some("update"), &update_type),
        (Some("update"), &v7_id),
    ];
    for (kind, query) in cases {
        assert_eq!(code_of(check_query(kind, query, 200).err().unwrap()), (422, "INVALID_TARGET_FILTER".to_owned()));
    }
    assert!(check_query(Some("update"), &valid, 200).is_ok());
}

#[test]
fn index_report_target_filter_requires_a_valid_pair_on_update_queries() {
    target_filter_cases();
}

#[test]
fn tests_report_target_filter_requires_a_valid_pair_on_update_queries() {
    target_filter_cases();
}
