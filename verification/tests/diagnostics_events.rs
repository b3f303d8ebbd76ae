use project_application::diagnostics::{classification, event, health, Failure};
use project_application::reply::{AppError, StoreFailure};

fn io_failure() -> Failure {
    Failure { category: "io".into(), io_kind: None, sqlite_code: None }
}

#[test]
fn malformed_identifiers_and_stages_are_omitted_or_bounded() {
    let project = uuid::Uuid::new_v4().to_string();
    let request = uuid::Uuid::now_v7().to_string();
    for (project, request) in [("secret-path", "secret-token"), (request.as_str(), project.as_str())] {
        let value = event("secret\nforged_log", io_failure(), Some(project), Some(request));
        assert_eq!(value.stage, "unspecified");
        assert!(value.project_id.is_none());
        assert!(value.request_id.is_none());
        let rendered = format!("{}{}{}", value.stage, value.failure.category, value.failure.io_kind.unwrap_or_default());
        assert!(!rendered.contains("secret"));
    }
}

#[test]
fn well_formed_identifiers_and_stages_are_kept() {
    let project = uuid::Uuid::new_v4().to_string();
    let request = uuid::Uuid::now_v7().to_string();
    let value = event("source_recovery", io_failure(), Some(&project), Some(&request));
    assert_eq!(value.stage, "source_recovery");
    assert_eq!(value.project_id, Some(project));
    assert_eq!(value.request_id, Some(request));
    assert_eq!(event(&"a".repeat(65), io_failure(), None, None).stage, "unspecified");
    assert_eq!(event("", io_failure(), None, None).stage, "unspecified");
}

#[test]
fn failures_keep_safe_categories_without_error_text() {
    let io = classification(&AppError::Store(StoreFailure::Io { kind: "NotFound".into() }));
    assert_eq!(io.category, "io");
    assert_eq!(io.io_kind.as_deref(), Some("NotFound"));
    let db = classification(&AppError::Database { sqlite_code: Some(1) });
    assert_eq!(db.category, "database");
    assert_eq!(db.sqlite_code, Some(1));
    assert_eq!(classification(&AppError::stored("secret-context")).category, "stored_data");
    assert_eq!(classification(&AppError::reject(422, "secret-rejection")).category, "rejected");
    assert_eq!(classification(&AppError::Store(StoreFailure::Invalid { code: "secret-path".into() })).category, "invalid_store");
    assert_eq!(classification(&AppError::Store(StoreFailure::Domain)).category, "source_validation");
    assert_eq!(classification(&AppError::Invariant("x".into())).category, "invariant");
    assert!(classification(&AppError::stored("secret-context")).io_kind.is_none());
}

#[test]
fn health_is_degraded_by_any_warning() {
    let (h, state, index) = health(true, false, 0, None, 1_000_000, 0);
    assert!(h.workspace.is_none() && !h.recovery_pending && !h.clock_rollback && !h.source_diagnostics);
    assert_eq!((state, index), ("ready", "ready"));
    let (h, state, index) = health(false, true, 2, Some("2000000"), 1_000_000, 0);
    assert_eq!(h.workspace, Some("WORKSPACE_MISSING"));
    assert!(h.recovery_pending && h.clock_rollback);
    assert_eq!((state, index), ("degraded", "degraded"));
    let (h, state, index) = health(true, false, 0, Some("bad"), 1_000_000, 3);
    assert!(!h.clock_rollback && h.source_diagnostics);
    assert_eq!((state, index), ("degraded", "degraded"));
}
