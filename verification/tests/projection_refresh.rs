use project_application::projection::refresh_keys;
use project_application::events::{EventKind, EventReason};
use project_application::projection::{
    plan_projection, IndexedRow, ObservedSource, ProjectionDocument, ProjectionIssue, ProjectionPlan,
};
use project_application::reply::AppError;

fn doc(kind: &str, id: &str, source: Option<(&str, Option<&str>, &[&str])>) -> ProjectionDocument {
    ProjectionDocument {
        kind: kind.into(),
        id: id.into(),
        source: source.map(|(version, title, labels)| ObservedSource {
            version: version.into(),
            title: title.map(str::to_owned),
            labels: labels.iter().map(|l| l.to_string()).collect(),
        }),
    }
}

fn row(kind: &str, id: &str, version: &str, validity: &str, labels: &[&str]) -> IndexedRow {
    IndexedRow {
        kind: kind.into(),
        id: id.into(),
        version: version.into(),
        validity: validity.into(),
        labels: labels.iter().map(|l| l.to_string()).collect(),
    }
}

fn issue(path: &str, code: &str) -> ProjectionIssue {
    ProjectionIssue { path: path.into(), code: code.into() }
}

#[test]
fn a_refresh_writes_marks_removes_and_numbers_its_events() {
    let documents = vec![
        doc("card", "c1", Some(("v2", Some("Title"), &["x"]))),
        doc("card", "c2", None),
    ];
    let previous = vec![
        row("card", "c1", "v1", "valid", &[]),
        row("card", "c2", "v1", "valid", &[]),
        row("card", "c3", "v1", "valid", &[]),
    ];
    let plan = plan_projection("p", &documents, &previous, &vec![issue("cards/c4.md", "DOCUMENT_INVALID")], &vec![], false, true, 10)
        .ok()
        .unwrap();
    assert_eq!(plan.mark_stale, vec![("card".to_owned(), "c2".to_owned())]);
    assert_eq!(plan.upserts, vec![("card".to_owned(), "c1".to_owned())]);
    assert_eq!(plan.removals, vec![("card".to_owned(), "c3".to_owned())]);
    assert!(plan.issue_removals.is_empty());
    assert_eq!(plan.issue_upserts, vec![("cards/c4.md".to_owned(), "DOCUMENT_INVALID".to_owned())]);
    assert!(plan.end_reconciliation);
    let seen: Vec<(EventKind, i64, EventReason)> = plan.events.iter().map(|e| (e.kind, e.sequence, e.reason)).collect();
    assert_eq!(
        seen,
        vec![
            (EventKind::Changed, 11, EventReason::SourceChanged),
            (EventKind::HealthChanged, 12, EventReason::DocumentInvalid),
            (EventKind::Changed, 13, EventReason::SourceRemoved),
        ]
    );
    assert_eq!(plan.events[0].tags_changed, Some(true));
    assert_eq!(plan.events[0].version.as_deref(), Some("v2"));
    assert_eq!(plan.sequence, 13);
    assert!(plan.record_revision);
}

#[test]
fn a_settled_refresh_is_quiet() {
    let documents = vec![doc("card", "c1", Some(("v1", Some("T"), &["x"])))];
    let previous = vec![row("card", "c1", "v1", "valid", &["x"])];
    let issues = vec![issue("cards/c9.md", "X")];
    let plan = plan_projection("p", &documents, &previous, &issues, &issues, true, true, 4).ok().unwrap();
    assert!(plan.upserts.is_empty() && plan.mark_stale.is_empty() && plan.removals.is_empty());
    assert!(plan.issue_removals.is_empty() && plan.issue_upserts.is_empty());
    assert!(plan.events.is_empty());
    assert_eq!(plan.sequence, 4);
    assert!(!plan.record_revision);
    assert!(!plan.end_reconciliation);
}

#[test]
fn ending_reconciliation_publishes_one_health_event() {
    let plan = plan_projection("p", &vec![], &vec![], &vec![], &vec![issue("a.md", "X")], false, true, 0).ok().unwrap();
    assert_eq!(plan.issue_removals, vec!["a.md".to_owned()]);
    let seen: Vec<(EventKind, i64, EventReason)> = plan.events.iter().map(|e| (e.kind, e.sequence, e.reason)).collect();
    assert_eq!(seen, vec![(EventKind::HealthChanged, 1, EventReason::ProjectionIssuesChanged)]);
    let plan = plan_projection("p", &vec![], &vec![], &vec![], &vec![], false, true, 0).ok().unwrap();
    let seen: Vec<EventReason> = plan.events.iter().map(|e| e.reason).collect();
    assert_eq!(seen, vec![EventReason::ProjectionReconciled]);
}

#[test]
fn a_document_to_index_without_a_title_fails_the_refresh() {
    let documents = vec![doc("card", "c1", Some(("v2", None, &[])))];
    let res = plan_projection("p", &documents, &vec![], &vec![], &vec![], true, false, 0);
    assert!(matches!(res, Err(AppError::Invariant(c)) if c == "indexed document title"));
}

#[test]
fn the_last_diagnostic_for_a_path_wins() {
    let now = vec![issue("a.md", "X"), issue("a.md", "Y")];
    let before = vec![issue("a.md", "Y")];
    let plan = plan_projection("p", &vec![], &vec![], &now, &before, true, false, 0).ok().unwrap();
    assert!(plan.issue_upserts.is_empty());
    assert!(plan.events.is_empty());
}

#[test]
fn marking_a_project_unavailable_reports_health_once() {
    assert!(project_application::projection::unavailable_event(0, true, 0, 5, "p1").is_none());
    let e = project_application::projection::unavailable_event(2, true, 0, 5, "p1").unwrap();
    assert_eq!((e.kind, e.sequence, e.project_id.as_deref(), e.reason), (EventKind::HealthChanged, 6, Some("p1"), EventReason::ProjectUnavailable));
    assert!(project_application::projection::unavailable_event(0, false, 0, 5, "p1").is_some());
    assert!(project_application::projection::unavailable_event(0, true, 1, 5, "p1").is_some());
}

#[test]
fn workspace_changes_ask_for_a_resync() {
    let e = project_application::projection::workspace_event(9);
    assert_eq!((e.kind, e.sequence, e.project_id, e.reason), (EventKind::ResyncRequired, 10, None, EventReason::WorkspaceChanged));
}

fn apply(previous: &[IndexedRow], documents: &[ProjectionDocument], plan: &ProjectionPlan) -> Vec<IndexedRow> {
    let mut rows: Vec<IndexedRow> = previous
        .iter()
        .filter(|r| !plan.removals.contains(&(r.kind.clone(), r.id.clone())))
        .map(|r| IndexedRow {
            kind: r.kind.clone(),
            id: r.id.clone(),
            version: r.version.clone(),
            validity: if plan.mark_stale.contains(&(r.kind.clone(), r.id.clone())) { "stale".into() } else { r.validity.clone() },
            labels: r.labels.clone(),
        })
        .collect();
    for (kind, id) in &plan.upserts {
        let d = documents.iter().find(|d| &d.kind == kind && &d.id == id).unwrap();
        let s = d.source.as_ref().unwrap();
        rows.retain(|r| !(&r.kind == kind && &r.id == id));
        rows.push(IndexedRow { kind: kind.clone(), id: id.clone(), version: s.version.clone(), validity: "valid".into(), labels: s.labels.clone() });
    }
    rows
}

#[test]
fn refreshing_again_after_applying_a_refresh_does_nothing() {
    let documents = vec![
        doc("card", "c1", Some(("v2", Some("Title"), &["x"]))),
        doc("card", "c2", None),
        doc("milestone", "m1", Some(("v1", Some("M"), &[]))),
        doc("card", "c5", Some(("v1", Some("New"), &[]))),
    ];
    let previous = vec![
        row("card", "c1", "v1", "valid", &[]),
        row("card", "c2", "v1", "valid", &[]),
        row("card", "c3", "v1", "valid", &[]),
        row("milestone", "m1", "v1", "valid", &[]),
    ];
    let issues = vec![issue("cards/c2.md", "DOCUMENT_INVALID")];
    let first = plan_projection("p", &documents, &previous, &issues, &vec![], false, true, 10).ok().unwrap();
    assert_eq!(first.sequence, 14);
    let rows = apply(&previous, &documents, &first);
    let second = plan_projection("p", &documents, &rows, &issues, &issues, false, false, first.sequence).ok().unwrap();
    assert!(second.upserts.is_empty() && second.removals.is_empty());
    assert_eq!(second.mark_stale, vec![("card".to_owned(), "c2".to_owned())]);
    assert!(rows.iter().any(|r| r.id == "c2" && r.validity == "stale"));
    assert!(second.issue_removals.is_empty() && second.issue_upserts.is_empty());
    assert!(second.events.is_empty());
    assert_eq!(second.sequence, first.sequence);
    assert!(!second.record_revision);
}

const U1: &str = "6f1c2b3a-4d5e-4f60-8a7b-9c0d1e2f3a4b";
const U2: &str = "0a1b2c3d-4e5f-4a6b-9c7d-8e9f0a1b2c3d";

#[test]
fn targeted_refreshes_name_documents_by_uuid_and_read_each_once() {
    let targets = vec![
        ("card".to_owned(), U1.to_owned()),
        ("milestone".to_owned(), U2.to_owned()),
        ("card".to_owned(), U1.to_owned()),
        ("update".to_owned(), U1.to_uppercase()),
    ];
    let keys = refresh_keys(&targets).ok().unwrap();
    assert_eq!(
        keys,
        vec![("card".to_owned(), U1.to_owned()), ("milestone".to_owned(), U2.to_owned()), ("update".to_owned(), U1.to_uppercase())]
    );
    let bad = vec![("card".to_owned(), U1.to_owned()), ("card".to_owned(), "../etc/passwd".to_owned())];
    assert!(matches!(refresh_keys(&bad), Err(AppError::Invariant(_))));
}
