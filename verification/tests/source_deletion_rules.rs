use project_application::mutation::DocKind;
use project_application::reply::{AppError, ReplyBody, StoreFailure};
use project_application::source_deletion::{
    check_guard, finish_after_guard, preflight, recovery_check, referencing_report, source_deletion, RecoveryCheck,
    ReportLinks, SourceDeletion,
};
use project_application::journal::reject_error;
use project_application::reply::Reply;

fn rejected(e: AppError) -> (u16, String) {
    match e {
        AppError::Rejected(r) => match r.body {
            ReplyBody::Error { code, .. } => (r.http_status, code),
            _ => panic!(),
        },
        _ => panic!("not a rejection"),
    }
}

fn report(id: &str, supersedes: Option<&str>, resolves: &[&str]) -> ReportLinks {
    ReportLinks { id: id.into(), supersedes: supersedes.map(str::to_owned), resolves: resolves.iter().map(|s| s.to_string()).collect() }
}

#[test]
fn deleted_sources_must_be_the_version_seen() {
    assert!(preflight(Some("v1"), Some("v1"), true).is_ok());
    assert_eq!(rejected(preflight(None, Some("v1"), true).unwrap_err()), (404, "RESOURCE_NOT_FOUND".into()));
    assert_eq!(rejected(preflight(Some("v2"), Some("v1"), true).unwrap_err()), (412, "VERSION_CONFLICT".into()));
    assert_eq!(rejected(preflight(Some("v2"), None, true).unwrap_err()), (412, "VERSION_CONFLICT".into()));
    assert_eq!(rejected(preflight(Some("v1"), Some("v1"), false).unwrap_err()), (409, "DOCUMENT_INVALID".into()));
}

#[test]
fn referenced_reports_name_their_first_referrer() {
    let reports = vec![report("r1", None, &["r9"]), report("r2", Some("r5"), &[]), report("r3", None, &["r7", "r5"])];
    assert_eq!(referencing_report(&reports, "r5"), Some(1));
    assert_eq!(referencing_report(&reports, "r7"), Some(2));
    assert_eq!(referencing_report(&reports, "r2"), None);
    assert_eq!(reports[1].id, "r2");
}

#[test]
fn pins_and_references_hold_sources() {
    assert_eq!(rejected(check_guard(DocKind::Card, true, false).unwrap_err()), (409, "CARD_IN_FOCUS".into()));
    assert!(check_guard(DocKind::Card, false, true).is_ok());
    assert_eq!(rejected(check_guard(DocKind::Update, false, true).unwrap_err()), (409, "REPORT_REFERENCED".into()));
    assert!(check_guard(DocKind::Update, true, false).is_ok());
    assert!(matches!(check_guard(DocKind::Milestone, false, false), Err(AppError::Invariant(_))));
}

#[test]
fn recovery_rechecks_deletions() {
    assert!(matches!(recovery_check(true, "PATCH", DocKind::Project), RecoveryCheck::Finish));
    assert!(matches!(recovery_check(false, "DELETE", DocKind::Card), RecoveryCheck::Guard));
    assert!(matches!(recovery_check(false, "DELETE", DocKind::Update), RecoveryCheck::Guard));
    assert!(matches!(recovery_check(false, "DELETE", DocKind::Milestone), RecoveryCheck::Review));
    assert!(matches!(recovery_check(false, "PATCH", DocKind::Card), RecoveryCheck::Review));
    assert_eq!(finish_after_guard(Ok(())).ok(), Some(true));
    assert_eq!(finish_after_guard(check_guard(DocKind::Card, true, false)).ok(), Some(false));
    assert!(matches!(finish_after_guard(Err(AppError::Store(StoreFailure::Conflict))), Err(AppError::Store(StoreFailure::Conflict))));
}

const REQ: &str = "01890a5d-ac96-774b-bcce-b302099a8057";

fn code(d: SourceDeletion) -> (u16, String, Option<String>) {
    match d {
        SourceDeletion::Rejected(r) => match r.body {
            ReplyBody::Error { code, request_id } => (r.http_status, code, request_id),
            _ => panic!(),
        },
        _ => panic!("not rejected"),
    }
}

#[test]
fn a_deletion_is_answered_from_admission_before_any_lookup() {
    let replay = Reply::error(409, "EPOCH_CHANGED", REQ);
    match source_deletion(Some(replay), false, false, Err(AppError::Store(StoreFailure::Conflict)), Ok(()), Ok(()), Ok(true), REQ) {
        SourceDeletion::Answered(r) => assert_eq!(r.http_status, 409),
        _ => panic!("admission not first"),
    }
}

#[test]
fn deletion_refusals_come_in_order() {
    let ok = || Ok(());
    assert_eq!(code(source_deletion(None, false, false, ok(), ok(), ok(), Ok(true), REQ)).1, "VALIDATION_FAILED");
    assert_eq!(code(source_deletion(None, true, false, ok(), ok(), ok(), Ok(true), REQ)).1, "PRECONDITION_REQUIRED");
    let (status, c, id) = code(source_deletion(None, true, true, Err(AppError::reject(404, "PROJECT_NOT_FOUND")), Err(AppError::reject(412, "VERSION_CONFLICT")), ok(), Ok(true), REQ));
    assert_eq!((status, c.as_str(), id.as_deref()), (404, "PROJECT_NOT_FOUND", Some(REQ)));
    assert_eq!(code(source_deletion(None, true, true, ok(), Err(AppError::reject(412, "VERSION_CONFLICT")), Err(AppError::reject(409, "X")), Ok(true), REQ)).1, "VERSION_CONFLICT");
    assert_eq!(code(source_deletion(None, true, true, ok(), ok(), Err(AppError::reject(409, "SOURCE_REFERENCED")), Ok(true), REQ)).1, "SOURCE_REFERENCED");
    assert_eq!(code(source_deletion(None, true, true, ok(), ok(), ok(), Ok(true), REQ)).0, 409);
    assert!(matches!(source_deletion(None, true, true, ok(), ok(), ok(), Ok(false), REQ), SourceDeletion::Proceed));
    assert!(matches!(
        source_deletion(None, true, true, ok(), ok(), ok(), Err(AppError::Store(StoreFailure::Conflict)), REQ),
        SourceDeletion::Failed(AppError::Store(StoreFailure::Conflict))
    ));
}

#[test]
fn a_refusal_is_recorded_with_the_request_id() {
    match reject_error(AppError::reject(404, "RESOURCE_NOT_FOUND"), REQ) {
        Ok(r) => {
            assert_eq!(r.http_status, 404);
            assert!(matches!(r.body, ReplyBody::Error { ref code, ref request_id } if code == "RESOURCE_NOT_FOUND" && request_id.as_deref() == Some(REQ)));
        },
        Err(_) => panic!("refusal not recorded"),
    }
    assert!(matches!(reject_error(AppError::Invariant("x".into()), REQ), Err(AppError::Invariant(_))));
}
