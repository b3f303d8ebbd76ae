use project_application::gantt::{edges, EdgeWarning, GanttRow, Predecessor};

fn row(id: &str, start: Option<&str>, deps: &[&str]) -> GanttRow {
    GanttRow { id: id.into(), start: start.map(str::to_owned), depends_on: deps.iter().map(|d| d.to_string()).collect() }
}

fn pred(id: &str, end: Option<&str>, valid: bool) -> Predecessor {
    Predecessor { id: id.into(), end: end.map(str::to_owned), valid }
}

#[test]
fn each_dependency_draws_one_edge_with_its_warning() {
    let rows = vec![row("a", Some("2026-03-10"), &["p1", "p2", "p3"]), row("b", Some("2026-03-01"), &["a", "p4", "gone"])];
    let preds = vec![
        pred("p1", Some("2026-03-09"), true),
        pred("p2", Some("2026-03-10"), true),
        pred("p3", Some("2026-03-01"), false),
        pred("a", None, true),
        pred("p4", Some("2026-03-05"), true),
    ];
    let drawn = edges(&rows, &preds, false);
    let seen: Vec<(&str, &str, bool, Option<EdgeWarning>)> =
        drawn.iter().map(|e| (e.from.as_str(), e.to.as_str(), e.outside_page, e.warning)).collect();
    assert_eq!(
        seen,
        vec![
            ("p1", "a", true, None),
            ("p2", "a", true, Some(EdgeWarning::DependencyDateConflict)),
            ("p3", "a", true, Some(EdgeWarning::DependencyStale)),
            ("a", "b", false, None),
            ("p4", "b", true, Some(EdgeWarning::DependencyDateConflict)),
            ("gone", "b", true, Some(EdgeWarning::DependencyMissing)),
        ]
    );
}

#[test]
fn a_stale_projection_marks_every_known_dependency_stale() {
    let rows = vec![row("a", None, &["p1", "x"])];
    let drawn = edges(&rows, &vec![pred("p1", Some("2026-01-01"), true)], true);
    assert_eq!(drawn[0].warning, Some(EdgeWarning::DependencyStale));
    assert_eq!(drawn[1].warning, Some(EdgeWarning::DependencyMissing));
    assert_eq!(EdgeWarning::DependencyDateConflict.as_str(), "DEPENDENCY_DATE_CONFLICT");
}
