use project_application::clock::instant;
use project_application::draft::{created, patched};
use project_application::history::Field;
use project_application::mutation::DocKind;
use project_application::reply::{AppError, ReplyBody};
use std::collections::BTreeMap;

fn fields(pairs: &[(&str, &str)]) -> Vec<Field> {
    pairs.iter().map(|(n, v)| Field { name: n.to_string(), value: v.to_string() }).collect()
}

fn object(v: &[Field]) -> BTreeMap<String, String> {
    v.iter().map(|f| (f.name.clone(), f.value.clone())).collect()
}

fn expected(pairs: &[(&str, &str)]) -> BTreeMap<String, String> {
    pairs.iter().map(|(n, v)| (n.to_string(), v.to_string())).collect()
}

const ID: &str = "6f1c2b3a-4d5e-4f60-8a7b-9c0d1e2f3a4b";
const NOW: i64 = 1_700_000_000_123;

#[test]
fn a_new_card_gets_its_id_timestamps_and_defaults() {
    let (meta, body) = created(DocKind::Card, ID, &fields(&[("title", "\"Plan\""), ("priority", "\"high\""), ("body", "\"Text\"")]), NOW);
    let stamp = format!("\"{}\"", instant(NOW));
    assert_eq!(body, "\"Text\"");
    let id = format!("\"{ID}\"");
    assert_eq!(
        object(&meta),
        expected(&[
            ("title", "\"Plan\""),
            ("priority", "\"high\""),
            ("id", &id),
            ("created_at", &stamp),
            ("updated_at", &stamp),
            ("status", "\"planned\""),
            ("archived", "false"),
            ("kind", "\"outcome\""),
        ])
    );
}

#[test]
fn a_new_report_records_when_it_was_recorded() {
    let (meta, body) = created(DocKind::Update, ID, &fields(&[("kind", "\"progress\"")]), NOW);
    let stamp = format!("\"{}\"", instant(NOW));
    let id = format!("\"{ID}\"");
    assert_eq!(body, "\"\"");
    assert_eq!(object(&meta), expected(&[("kind", "\"progress\""), ("id", &id), ("recorded_at", &stamp)]));
}

#[test]
fn a_new_milestone_keeps_a_given_status() {
    let (meta, _) = created(DocKind::Milestone, ID, &fields(&[("status", "\"active\"")]), NOW);
    let m = object(&meta);
    assert_eq!(m.get("status").map(String::as_str), Some("\"active\""));
    assert_eq!(m.get("archived").map(String::as_str), Some("false"));
    assert!(!m.contains_key("kind"));
}

#[test]
fn patches_set_then_clear() {
    let meta = fields(&[("title", "\"Old\""), ("owner", "\"ann\""), ("due", "\"2026-01-01\"")]);
    let (next, body) = patched(&meta, "\"old body\"", &fields(&[("title", "\"New\""), ("body", "\"new body\"")]), &vec!["owner".into()]).unwrap();
    assert_eq!(object(&next), expected(&[("title", "\"New\""), ("due", "\"2026-01-01\"")]));
    assert_eq!(body, "\"new body\"");
    let (again, body2) = patched(&next, &body, &fields(&[("title", "\"New\""), ("body", "\"new body\"")]), &vec!["owner".into()]).unwrap();
    assert_eq!(object(&again), object(&next));
    assert_eq!(body2, body);
}

#[test]
fn setting_and_clearing_one_field_is_refused() {
    let meta = fields(&[("title", "\"Old\"")]);
    match patched(&meta, "\"\"", &fields(&[("title", "\"New\"")]), &vec!["title".into()]) {
        Err(AppError::Rejected(r)) => match r.body {
            ReplyBody::Error { code, .. } => assert_eq!((r.http_status, code.as_str()), (422, "SET_CLEAR_OVERLAP")),
            _ => panic!(),
        },
        _ => panic!("not refused"),
    }
}

#[test]
fn an_id_is_written_as_an_escaped_json_string() {
    let odd = "a\"b\\c\nd\u{1}e\u{1f}é";
    let (meta, _) = created(DocKind::Update, odd, &fields(&[]), NOW);
    let id = object(&meta).get("id").cloned().unwrap();
    assert_eq!(id, "\"a\\\"b\\\\c\\nd\\u0001e\\u001fé\"");
}
