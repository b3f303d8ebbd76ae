use project_application::counters::{configure, record, Counter, CounterSettings};
use project_application::reply::{AppError, ReplyBody};

fn rejected(e: AppError) -> (u16, String) {
    match e {
        AppError::Rejected(r) => match r.body {
            ReplyBody::Error { code, .. } => (r.http_status, code),
            _ => panic!(),
        },
        _ => panic!("not a rejection"),
    }
}

fn counter(id: &str, unit: &str, archived: bool, values: &[(&str, &str)]) -> Counter {
    Counter {
        id: id.into(),
        name: "Pages".into(),
        unit: unit.into(),
        step: "1".into(),
        archived,
        values: values.iter().map(|(d, v)| (d.to_string(), v.to_string())).collect(),
    }
}

fn settings(unit: &str) -> CounterSettings {
    CounterSettings { name: "Words".into(), unit: unit.into(), step: "5".into(), archived: true }
}

#[test]
fn configuring_keeps_recorded_values() {
    let mut counters = vec![counter("c1", "pages", false, &[("2026-01-01", "3")]), counter("c2", "km", false, &[])];
    configure(&mut counters, "c1", &settings("pages")).unwrap();
    assert_eq!((counters[0].name.as_str(), counters[0].step.as_str(), counters[0].archived), ("Words", "5", true));
    assert_eq!(counters[0].values, vec![("2026-01-01".to_string(), "3".to_string())]);
    configure(&mut counters, "c2", &settings("miles")).unwrap();
    assert_eq!(counters[1].unit, "miles");
}

#[test]
fn configuring_refuses_unknown_counters_and_units_with_history() {
    let mut counters = vec![counter("c1", "pages", false, &[("2026-01-01", "3")])];
    assert_eq!(rejected(configure(&mut counters, "c9", &settings("pages")).unwrap_err()), (422, "COUNTER_NOT_FOUND".into()));
    assert_eq!(rejected(configure(&mut counters, "c1", &settings("words")).unwrap_err()), (422, "COUNTER_UNIT_HAS_HISTORY".into()));
    assert_eq!(counters[0].unit, "pages");
}

#[test]
fn recording_replaces_or_appends_by_date() {
    let mut counters = vec![counter("c1", "pages", false, &[("2026-01-01", "3"), ("2026-01-02", "4")])];
    record(&mut counters, "c1", "2026-01-02", true, "9").unwrap();
    record(&mut counters, "c1", "2026-01-03", true, "1").unwrap();
    let values: Vec<(&str, &str)> = counters[0].values.iter().map(|(d, v)| (d.as_str(), v.as_str())).collect();
    assert_eq!(values, vec![("2026-01-01", "3"), ("2026-01-02", "9"), ("2026-01-03", "1")]);
}

#[test]
fn recording_refuses_each_bad_input() {
    let mut counters = vec![counter("c1", "pages", true, &[]), counter("c2", "pages", false, &[])];
    assert_eq!(rejected(record(&mut counters, "c9", "2026-01-01", true, "1").unwrap_err()), (422, "COUNTER_NOT_FOUND".into()));
    assert_eq!(rejected(record(&mut counters, "c1", "2026-01-01", true, "1").unwrap_err()), (422, "COUNTER_ARCHIVED".into()));
    assert_eq!(rejected(record(&mut counters, "c2", "2026-02-30", false, "1").unwrap_err()), (422, "INVALID_COUNTER_DATE".into()));
    assert!(counters[1].values.is_empty());
}

#[test]
fn new_counters_get_a_fresh_id_and_no_values() {
    let mut counters = vec![counter("c1", "pages", false, &[])];
    let at = project_application::counters::add_counter(&mut counters, &settings("km")).unwrap();
    assert_eq!(at, 1);
    assert!(project_application::ids::canonical_uuid(&counters[1].id, 4));
    assert_eq!((counters[1].unit.as_str(), counters[1].archived), ("km", true));
    assert!(counters[1].values.is_empty());
    assert_eq!(counters[0].id, "c1");
}
