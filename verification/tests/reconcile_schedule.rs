use project_application::reconcile::{ReconcileSchedule, RECONCILE_WINDOW};

#[test]
fn project_reads_reconcile_at_most_once_per_window() {
    let mut schedule = ReconcileSchedule::new();
    assert!(schedule.reserve_if_due("p1", 1_000));
    assert!(!schedule.reserve_if_due("p1", 1_000 + RECONCILE_WINDOW - 1));
    assert!(schedule.reserve_if_due("p2", 1_001));
    assert!(schedule.reserve_if_due("p1", 1_000 + RECONCILE_WINDOW));
    schedule.completed("p2", 5 * RECONCILE_WINDOW);
    assert!(!schedule.reserve_if_due("p2", 5 * RECONCILE_WINDOW + 1));
    assert!(!schedule.reserve_if_due("p2", 10));
}
