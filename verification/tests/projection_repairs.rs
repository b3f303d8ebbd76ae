use project_application::repairs::{ProjectionRepairs, RETRY_BATCH, RETRY_DELAY};

/// A monotonic clock reading in nanoseconds, standing for `Instant::now()`.
const NOW: u64 = 5_000_000_000_000;

#[test]
fn repairs_back_off_reserve_in_flight_work_and_bound_each_batch() {
    let mut repairs = ProjectionRepairs::default();
    let now = NOW;
    for n in 0..20 {
        let project = format!("project-{n:02}");
        repairs.start(&project, "request");
        repairs.finish(&project, false, now);
    }
    assert!(repairs.due(now).is_empty());
    assert!(repairs.due(now + RETRY_DELAY - 1).is_empty());
    let first = repairs.due(now + RETRY_DELAY);
    assert_eq!(first.len(), RETRY_BATCH);
    let second = repairs.due(now + RETRY_DELAY);
    assert_eq!(second.len(), 4);
    assert!(repairs.due(now + RETRY_DELAY * 2).is_empty());
    repairs.finish(&first[0].0, true, now + RETRY_DELAY);
    repairs.finish(&first[1].0, false, now + RETRY_DELAY);
    assert!(repairs.due(now + RETRY_DELAY).is_empty());
    assert_eq!(repairs.due(now + RETRY_DELAY * 2), vec![first[1].clone()]);
}

#[test]
fn due_repairs_come_out_in_project_order() {
    let mut repairs = ProjectionRepairs::new();
    for project in ["delta", "alpha", "charlie", "bravo"] {
        repairs.start(project, &format!("request-{project}"));
        repairs.finish(project, false, NOW);
    }
    let due = repairs.due(NOW + RETRY_DELAY);
    let order: Vec<&str> = due.iter().map(|(p, _)| p.as_str()).collect();
    assert_eq!(order, vec!["alpha", "bravo", "charlie", "delta"]);
    assert_eq!(due[0].1, "request-alpha");
}

#[test]
fn restarting_a_repair_reserves_it_under_the_new_request() {
    let mut repairs = ProjectionRepairs::new();
    repairs.start("p", "first");
    repairs.finish("p", false, NOW);
    repairs.start("p", "second");
    assert!(repairs.due(NOW + RETRY_DELAY).is_empty());
    repairs.finish("p", false, NOW);
    assert_eq!(
        repairs.due(NOW + RETRY_DELAY),
        vec![("p".to_string(), "second".to_string())]
    );
}

#[test]
fn finishing_an_unknown_project_changes_nothing() {
    let mut repairs = ProjectionRepairs::new();
    repairs.finish("ghost", false, NOW);
    assert!(repairs.due(u64::MAX).is_empty());
}
