use project_application::command_state::CommandState;
use project_application::reply::{AppError, StoreFailure};
use project_application::workflow::{
    check_identity, commit_check, failure_state, job_action, job_after, resume_point, JobAction, JobOutcome, OperationalPath, Resume, Step, StepAction,
};

fn step(before: Option<&[u8]>, after: &[u8]) -> Step {
    Step {
        root: "/srv/p".to_owned(),
        identity: (1, 2),
        path: vec![".project".to_owned(), "project.md".to_owned()],
        before: before.map(|b| b.to_vec()),
        after: after.to_vec(),
    }
}

#[test]
fn operational_paths_are_absolute_without_nul() {
    assert_eq!(OperationalPath::new("/home/me/p").ok().map(|p| p.as_str().to_owned()), Some("/home/me/p".to_owned()));
    assert_eq!(
        OperationalPath::new("relative/p").err(),
        Some("workflow operational path must be an absolute UTF-8 path")
    );
    assert!(OperationalPath::new("").is_err());
    assert!(OperationalPath::new("/a\0b").is_err());
}

#[test]
fn steps_resync_replace_or_refuse() {
    let s = step(Some(b"old"), b"new");
    assert_eq!(s.action(&Some(b"new".to_vec())).ok(), Some(StepAction::Resync));
    assert_eq!(s.action(&Some(b"old".to_vec())).ok(), Some(StepAction::Replace));
    assert!(matches!(s.action(&None), Err(AppError::Rejected(r)) if r.http_status == 409));
    let created = step(None, b"new");
    assert_eq!(created.action(&None).ok(), Some(StepAction::Replace));
    assert!(created.verify_done(&Some(b"new".to_vec())).is_ok());
    assert!(created.verify_done(&None).is_err());
    assert_eq!(created.file_name().ok().map(|n| n.as_str()), Some("project.md"));
}

#[test]
fn approved_directories_must_keep_their_identity() {
    assert!(check_identity((1, 2), (1, 2)).is_ok());
    assert!(matches!(check_identity((1, 3), (1, 2)), Err(AppError::Rejected(r)) if r.http_status == 409));
}

#[test]
fn commits_are_refused_in_order() {
    assert_eq!(commit_check(10, 10, true, false, true), Some("PLAN_EXPIRED"));
    assert_eq!(commit_check(9, 10, true, false, true), Some("PROJECT_RECOVERY_REQUIRED"));
    assert_eq!(commit_check(9, 10, false, false, true), Some("PLAN_STALE"));
    assert_eq!(commit_check(9, 10, false, true, true), Some("PLAN_ALREADY_COMMITTED"));
    assert_eq!(commit_check(9, 10, false, true, false), None);
}

#[test]
fn jobs_resume_where_they_stopped() {
    assert_eq!(resume_point("done", 0, 3).ok(), Some(Resume::Done));
    assert!(matches!(resume_point("needs_review", 0, 3), Err(AppError::Rejected(r)) if r.http_status == 409));
    assert_eq!(resume_point("running", 2, 3).ok(), Some(Resume::From(2)));
    assert_eq!(resume_point("running", 3, 3).ok(), Some(Resume::From(3)));
    assert!(matches!(resume_point("running", 4, 3), Err(AppError::Invariant(_))));
    assert!(matches!(resume_point("running", -1, 3), Err(AppError::Invariant(_))));
}

#[test]
fn conflicts_need_review_and_other_failures_block() {
    assert_eq!(failure_state(&AppError::reject(409, "X")), CommandState::NeedsReview);
    assert_eq!(failure_state(&AppError::Store(StoreFailure::Conflict)), CommandState::NeedsReview);
    assert_eq!(failure_state(&AppError::Store(StoreFailure::Invalid { code: "C".into() })), CommandState::NeedsReview);
    assert_eq!(failure_state(&AppError::Store(StoreFailure::Io { kind: "Other".into() })), CommandState::Blocked);
    assert_eq!(failure_state(&AppError::Unavailable("x".into())), CommandState::Blocked);
}

#[test]
fn plan_locations_hold_operational_paths_only() {
    use_locations();
}

fn use_locations() {
    let new = project_application::workflow::PlanLocation::new;
    let keys: Vec<String> = vec!["plan_id".into(), "changes".into()];
    let location = new("/home/p", Some("/home/old"), true, &keys).ok().unwrap();
    assert_eq!(location.destination.as_str(), "/home/p");
    assert_eq!(location.previous_path().ok(), Some("/home/old"));
    let registration = new("/home/p", None, true, &keys).ok().unwrap();
    assert!(matches!(registration.previous_path(), Err(project_application::reply::AppError::Invariant(c)) if c == "maintenance previous path"));
    let invariant = |r: Result<project_application::workflow::PlanLocation, project_application::reply::AppError>| match r {
        Err(project_application::reply::AppError::Invariant(c)) => c,
        _ => panic!("expected an invariant failure"),
    };
    assert_eq!(invariant(new("/home/p", None, true, &vec!["display_path".into()])), "workflow presentation cannot define operational paths");
    assert_eq!(invariant(new("/home/p", None, false, &keys)), "workflow presentation cannot define operational paths");
    assert_eq!(invariant(new("home/p", None, true, &keys)), "workflow destination path");
    assert_eq!(invariant(new("/home/p", Some("old"), true, &keys)), "workflow previous path");
}

#[test]
fn registration_and_maintenance_locations() {
    let keys: Vec<String> = vec!["plan_id".into()];
    let r = project_application::workflow::PlanLocation::registration("/p", true, &keys).ok().unwrap();
    assert!(r.previous.is_none());
    let m = project_application::workflow::PlanLocation::maintenance("/new", "/old", true, &keys).ok().unwrap();
    assert_eq!(m.previous_path().ok(), Some("/old"));
    assert!(project_application::workflow::PlanLocation::maintenance("/new", "old", true, &keys).is_err());
}

#[test]
fn a_resumed_job_checks_then_applies_then_completes() {
    let (next, steps) = (2, 4);
    let mut at = 0;
    let mut seen = Vec::new();
    loop {
        let action = job_action(at, next, steps);
        seen.push(action);
        match job_after(at, steps, None) {
            JobOutcome::Next(n) => at = n,
            JobOutcome::Done => break,
            JobOutcome::Stopped(_) => panic!("stopped without a failure"),
        }
    }
    assert_eq!(
        seen,
        vec![JobAction::Verify(0), JobAction::Verify(1), JobAction::Apply(2), JobAction::Apply(3), JobAction::Complete]
    );
}

#[test]
fn a_failed_job_step_or_completion_stops_the_job() {
    assert_eq!(job_after(1, 3, Some(&AppError::reject(409, "WORKFLOW_SOURCE_CHANGED"))), JobOutcome::Stopped(CommandState::NeedsReview));
    assert_eq!(job_after(1, 3, Some(&AppError::Store(StoreFailure::Io { kind: "Other".into() }))), JobOutcome::Stopped(CommandState::Blocked));
    assert_eq!(job_after(3, 3, Some(&AppError::reject(409, "X"))), JobOutcome::Stopped(CommandState::Blocked));
    assert_eq!(job_after(3, 3, None), JobOutcome::Done);
}
