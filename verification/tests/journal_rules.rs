use project_application::journal::{intake, record_step, recorded_command, schema_step, Intake, RecordStep, SchemaStep, STATE_SCHEMA};
use project_application::command_state::CommandState;
use project_application::journal::{
    admit_fresh, check_epoch, known, record_state, retain_history, Admission, Known, StoredCommand,
};
use project_application::reply::{AppError, ReplyBody};

const REQUEST: &str = "01890a5d-ac96-774b-bcce-b302099a8057";
const REQUEST_MILLIS: i64 = 1_688_096_058_518;

fn stored(state: &str, result: Option<&str>, error: Option<&str>) -> StoredCommand {
    StoredCommand {
        digest: "d1".into(),
        state: state.into(),
        result: result.map(str::to_owned),
        error: error.map(str::to_owned),
    }
}

fn refusal(a: Admission) -> (u16, String) {
    match a {
        Admission::Refuse(r) => match r.body {
            ReplyBody::Error { code, .. } => (r.http_status, code),
            _ => panic!(),
        },
        Admission::Admit { .. } => panic!("admitted"),
    }
}

#[test]
fn terminal_commands_replay_their_stored_reply() {
    match known(&stored("committed", Some("{\"ok\":1}"), None), "d1", REQUEST) {
        Ok(Known::Replay(t)) => assert_eq!(t, "{\"ok\":1}"),
        _ => panic!(),
    }
    match known(&stored("rejected", Some("{\"planned\":1}"), Some("{\"error\":1}")), "d1", REQUEST) {
        Ok(Known::Replay(t)) => assert_eq!(t, "{\"error\":1}"),
        _ => panic!(),
    }
}

#[test]
fn reused_keys_and_pending_commands_are_answered_now() {
    match known(&stored("committed", Some("{}"), None), "other", REQUEST) {
        Ok(Known::Reply(r)) => assert_eq!(r.http_status, 409),
        _ => panic!(),
    }
    match known(&stored("prepared", Some("{}"), None), "d1", REQUEST) {
        Ok(Known::Reply(r)) => {
            assert_eq!(r.http_status, 202);
            assert!(matches!(r.body, ReplyBody::Progress { state: CommandState::Prepared, .. }));
        },
        _ => panic!(),
    }
}

#[test]
fn broken_rows_are_invariant_failures() {
    assert!(matches!(known(&stored("finished", None, None), "d1", REQUEST), Err(AppError::Invariant(_))));
    assert!(matches!(known(&stored("committed", None, None), "d1", REQUEST), Err(AppError::Invariant(_))));
}

#[test]
fn other_epochs_are_refused() {
    assert!(check_epoch("e1", "e1", REQUEST).is_none());
    assert_eq!(check_epoch("e0", "e1", REQUEST).map(|r| r.http_status), Some(409));
}

#[test]
fn fresh_requests_are_admitted_within_the_window() {
    match admit_fresh(REQUEST, None, REQUEST_MILLIS) {
        Ok(Admission::Admit { floor }) => assert_eq!(floor, REQUEST_MILLIS),
        _ => panic!(),
    }
    match admit_fresh(REQUEST, Some("1688096058600"), REQUEST_MILLIS) {
        Ok(Admission::Admit { floor }) => assert_eq!(floor, 1_688_096_058_600),
        _ => panic!(),
    }
}

#[test]
fn requests_outside_the_window_or_clock_are_refused() {
    assert_eq!(refusal(admit_fresh("not-a-uuid", None, 0).ok().unwrap()), (422, "INVALID_REQUEST_ID".into()));
    let later = REQUEST_MILLIS + 86_400_001;
    assert_eq!(refusal(admit_fresh(REQUEST, None, later).ok().unwrap()), (409, "REQUEST_OUTSIDE_WINDOW".into()));
    let earlier = REQUEST_MILLIS - 300_001;
    assert_eq!(refusal(admit_fresh(REQUEST, None, earlier).ok().unwrap()), (409, "REQUEST_OUTSIDE_WINDOW".into()));
    let floor = (REQUEST_MILLIS + 300_001).to_string();
    assert_eq!(refusal(admit_fresh(REQUEST, Some(&floor), REQUEST_MILLIS).ok().unwrap()), (503, "CLOCK_ROLLBACK".into()));
    assert!(matches!(admit_fresh(REQUEST, Some("12x"), REQUEST_MILLIS), Err(AppError::StoredData { .. })));
}

#[test]
fn recorded_states_follow_the_outcome() {
    assert_eq!(record_state(true, true), CommandState::Rejected);
    assert_eq!(record_state(false, true), CommandState::Prepared);
    assert_eq!(record_state(false, false), CommandState::Committed);
}

#[test]
fn retention_removes_old_history_until_the_budget_fits() {
    let now: i64 = 1_700_000_000_000;
    let rows = vec![
        ("2023-01-01T00:00:00.000Z".to_owned(), 10),
        ("2023-10-01T00:00:00.000Z".to_owned(), 20),
        ("2023-11-10T00:00:00.000Z".to_owned(), 30),
    ];
    assert_eq!(retain_history(&rows, 100, now), (2, 70));
    let big = 2 * 1024 * 1024 * 1024;
    assert_eq!(retain_history(&rows, big, now), (3, big - 60));
}

fn rejected(e: AppError) -> (u16, String) {
    match e {
        AppError::Rejected(r) => match r.body {
            ReplyBody::Error { code, .. } => (r.http_status, code),
            _ => panic!(),
        },
        _ => panic!("not a rejection"),
    }
}

const EPOCH: &str = "6f1c2b3a-4d5e-4f60-8a7b-9c0d1e2f3a4b";

#[test]
fn newer_state_schemas_are_refused() {
    assert_eq!(STATE_SCHEMA, 2);
    assert!(matches!(schema_step(0), Ok(SchemaStep::Create)));
    assert!(matches!(schema_step(1), Ok(SchemaStep::Migrate)));
    assert!(matches!(schema_step(2), Ok(SchemaStep::Current)));
    assert_eq!(rejected(schema_step(3).err().unwrap()), (503, "STATE_SCHEMA_TOO_NEW".into()));
    assert_eq!(rejected(schema_step(u32::MAX).err().unwrap()), (503, "STATE_SCHEMA_TOO_NEW".into()));
}

#[test]
fn stored_epochs_must_be_uuids() {
    assert!(project_application::journal::check_stored_epoch(EPOCH).is_ok());
    assert!(matches!(project_application::journal::check_stored_epoch("epoch"), Err(AppError::Invariant(c)) if c == "stored command epoch"));
}

#[test]
fn repeated_receipts_are_found() {
    let items: Vec<(String, String)> = vec![("p1".into(), "u1".into()), ("p1".into(), "u2".into()), ("p2".into(), "u1".into())];
    assert_eq!(project_application::journal::duplicate_receipt(&items), None);
    let mut repeated = items.clone();
    repeated.push(("p1".into(), "u2".into()));
    assert_eq!(project_application::journal::duplicate_receipt(&repeated), Some(3));
}

#[test]
fn status_queries_are_checked_in_order() {
    let check = project_application::journal::check_status_query;
    assert!(check(REQUEST, EPOCH, EPOCH).is_ok());
    assert_eq!(rejected(check("nope", "nope", EPOCH).unwrap_err()), (400, "INVALID_REQUEST_ID".into()));
    assert_eq!(rejected(check(REQUEST, "nope", EPOCH).unwrap_err()), (400, "INVALID_EPOCH".into()));
    let other = "6f1c2b3a-4d5e-4f60-8a7b-9c0d1e2f3a4c";
    assert_eq!(rejected(check(REQUEST, other, EPOCH).unwrap_err()), (409, "EPOCH_CHANGED".into()));
}

#[test]
fn command_status_shows_the_error_of_a_rejection() {
    let reply = project_application::journal::status_reply("rejected", Some("{}".into()), Some("{\"error\":1}".into())).ok().unwrap();
    assert_eq!(reply, (CommandState::Rejected, Some("{\"error\":1}".to_string())));
    let reply = project_application::journal::status_reply("prepared", Some("{\"planned\":1}".into()), None).ok().unwrap();
    assert_eq!(reply, (CommandState::Prepared, Some("{\"planned\":1}".to_string())));
    assert!(matches!(project_application::journal::status_reply("lost", None, None), Err(AppError::Invariant(_))));
}

#[test]
fn restores_rotate_the_epoch_only_when_nothing_is_unresolved() {
    use_restore();
}

fn use_restore() {
    let unresolved = project_application::journal::unresolved;
    assert!(unresolved(CommandState::Prepared) && unresolved(CommandState::Blocked) && unresolved(CommandState::NeedsReview));
    assert!(!unresolved(CommandState::Committed) && !unresolved(CommandState::Rejected));
    assert_eq!(rejected(project_application::journal::rotated_epoch(true).unwrap_err()), (409, "RECOVERY_REQUIRED".into()));
    let epoch = project_application::journal::rotated_epoch(false).unwrap();
    assert!(project_application::ids::canonical_uuid(&epoch, 4));
    assert!(project_application::journal::check_epoch(&epoch, EPOCH, REQUEST).is_some());
    for state in ["pending", "approved", "claimed"] {
        assert!(project_application::journal::denied_by_restore(state));
    }
    assert!(!project_application::journal::denied_by_restore("denied"));
    assert!(!project_application::journal::denied_by_restore("expired"));
}

const OTHER_EPOCH: &str = "0a1b2c3d-4e5f-4a6b-9c7d-8e9f0a1b2c3d";

#[test]
fn intake_checks_the_epoch_before_anything_recorded() {
    let row = stored("committed", Some("{\"ok\":1}"), None);
    match intake(EPOCH, OTHER_EPOCH, REQUEST, "d1", Some(&row), Some("12x"), REQUEST_MILLIS) {
        Ok(Intake::EpochChanged(r)) => {
            assert_eq!(r.http_status, 409);
            assert!(matches!(r.body, ReplyBody::Error { ref code, ref request_id, .. } if code == "EPOCH_CHANGED" && request_id.as_deref() == Some(REQUEST)));
        },
        _ => panic!("epoch not checked first"),
    }
}

#[test]
fn intake_answers_a_known_request_from_its_record() {
    let row = stored("committed", Some("{\"ok\":1}"), None);
    match intake(EPOCH, EPOCH, REQUEST, "d1", Some(&row), Some("12x"), 0) {
        Ok(Intake::Known(Known::Replay(t))) => assert_eq!(t, "{\"ok\":1}"),
        _ => panic!("known request not replayed"),
    }
    match intake(EPOCH, EPOCH, REQUEST, "other", Some(&row), None, REQUEST_MILLIS) {
        Ok(Intake::Known(Known::Reply(r))) => assert_eq!(r.http_status, 409),
        _ => panic!("reused key not refused"),
    }
    let broken = stored("finished", None, None);
    assert!(matches!(intake(EPOCH, EPOCH, REQUEST, "d1", Some(&broken), None, REQUEST_MILLIS), Err(AppError::Invariant(_))));
}

#[test]
fn intake_admits_only_unknown_requests_under_the_floor() {
    match intake(EPOCH, EPOCH, REQUEST, "d1", None, Some("1688096058600"), REQUEST_MILLIS) {
        Ok(Intake::Fresh(Admission::Admit { floor })) => assert_eq!(floor, 1_688_096_058_600),
        _ => panic!("fresh request not admitted"),
    }
    match intake(EPOCH, EPOCH, REQUEST, "d1", None, None, REQUEST_MILLIS + 86_400_001) {
        Ok(Intake::Fresh(a)) => assert_eq!(refusal(a), (409, "REQUEST_OUTSIDE_WINDOW".into())),
        _ => panic!("stale request admitted"),
    }
    assert!(matches!(intake(EPOCH, EPOCH, REQUEST, "d1", None, Some("12x"), REQUEST_MILLIS), Err(AppError::StoredData { .. })));
}

#[test]
fn a_fresh_journal_epoch_is_a_version_4_uuid() {
    let first = project_application::journal::fresh_epoch().unwrap();
    assert!(project_application::ids::canonical_uuid(&first, 4));
    assert_ne!(first, project_application::journal::fresh_epoch().unwrap());
}

#[test]
fn a_recorded_reply_is_what_a_retry_replays() {
    let committed = recorded_command("d1", "{\"ok\":1}", false, false);
    assert_eq!((committed.state.as_str(), committed.result.as_deref(), committed.error.as_deref()), ("committed", Some("{\"ok\":1}"), None));
    match intake(EPOCH, EPOCH, REQUEST, "d1", Some(&committed), Some("12x"), 0) {
        Ok(Intake::Known(Known::Replay(t))) => assert_eq!(t, "{\"ok\":1}"),
        _ => panic!("recorded reply not replayed"),
    }
    let refused = recorded_command("d1", "{\"error\":1}", true, false);
    assert_eq!((refused.state.as_str(), refused.result.as_deref(), refused.error.as_deref()), ("rejected", None, Some("{\"error\":1}")));
    match known(&refused, "d1", REQUEST) {
        Ok(Known::Replay(t)) => assert_eq!(t, "{\"error\":1}"),
        _ => panic!("recorded rejection not replayed"),
    }
    match known(&refused, "d2", REQUEST) {
        Ok(Known::Reply(r)) => assert_eq!(r.http_status, 409),
        _ => panic!("reused key not refused"),
    }
    let prepared = recorded_command("d1", "{}", false, true);
    assert_eq!(prepared.state, "prepared");
    match known(&prepared, "d1", REQUEST) {
        Ok(Known::Reply(r)) => assert_eq!(r.http_status, 202),
        _ => panic!("prepared command not in progress"),
    }
}

#[test]
fn recording_again_keeps_and_answers_from_the_first_record() {
    let first = match record_step(None, "d1", "{\"ok\":1}", false, false, REQUEST) {
        RecordStep::Insert(row) => row,
        RecordStep::Answer(_) => panic!("nothing was recorded yet"),
    };
    assert_eq!(first.state, "committed");
    match record_step(Some(&first), "d1", "{\"other\":2}", true, false, REQUEST) {
        RecordStep::Answer(Ok(Known::Replay(t))) => assert_eq!(t, "{\"ok\":1}"),
        _ => panic!("second record did not answer from the first"),
    }
    match record_step(Some(&first), "d9", "{}", false, false, REQUEST) {
        RecordStep::Answer(Ok(Known::Reply(r))) => assert_eq!(r.http_status, 409),
        _ => panic!("reused key not refused"),
    }
}
