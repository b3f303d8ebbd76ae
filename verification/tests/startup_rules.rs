use project_application::ids::canonical_uuid;
use project_application::startup::{after_refresh, initial_workspace, job_recovery, needs_initial_workspace, project_step, JobRecovery, ProjectStep};
use project_application::workflow_kind::WorkflowKind;

#[test]
fn the_first_workspace_is_written_once() {
    assert!(needs_initial_workspace(true, false));
    assert!(!needs_initial_workspace(true, true));
    assert!(!needs_initial_workspace(false, false));
}

#[test]
fn a_new_workspace_has_default_preferences_and_a_fresh_instance() {
    let first = initial_workspace().unwrap();
    let second = initial_workspace().unwrap();
    assert!(canonical_uuid(&first.instance_id, 4));
    assert_ne!(first.instance_id, second.instance_id);
    let p = first.preferences;
    assert_eq!((p.timezone.as_str(), p.locale.as_str()), ("Europe/Warsaw", "en"));
    assert_eq!((p.week_start.as_deref(), p.default_view.as_deref()), (Some("monday"), Some("focus")));
}

#[test]
fn pending_jobs_resume_where_they_belong() {
    assert!(matches!(job_recovery(WorkflowKind::Unregister), JobRecovery::WithoutStore));
    assert!(matches!(job_recovery(WorkflowKind::IndexRebuild), JobRecovery::InStore { refresh_index: true }));
    assert!(matches!(job_recovery(WorkflowKind::Relocate), JobRecovery::InStore { refresh_index: false }));
    assert!(matches!(job_recovery(WorkflowKind::Registration), JobRecovery::InStore { refresh_index: false }));
}

#[test]
fn projects_are_refreshed_or_marked_unavailable() {
    assert!(matches!(project_step(false, true), ProjectStep::MarkUnavailable));
    assert!(matches!(project_step(true, true), ProjectStep::Refresh));
    assert!(matches!(project_step(true, false), ProjectStep::Done));
    assert!(matches!(after_refresh(true), ProjectStep::Done));
    assert!(matches!(after_refresh(false), ProjectStep::MarkUnavailable));
}
