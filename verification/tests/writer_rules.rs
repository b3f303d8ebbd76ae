use project_application::mutation::DocKind;
use project_application::command_state::CommandState;
use project_application::reply::{AppError, Reply, ReplyBody, StoreFailure};
use project_application::writer::{
    check_normalization, check_precondition, check_result, next_point, recovery_action, recovery_failure_state,
    write_step, BuiltFacts, CommitPoint, Recovery, WriteStep,
};
use project_application::writer::{
    check_write, exec_start, exec_step, result_status, CheckOutcome, ExecAction, ExecEvent, ExecState, WriteFacts,
};

fn code(reply: Option<Reply>) -> Option<(u16, String)> {
    reply.map(|r| match r.body {
        ReplyBody::Error { code, .. } => (r.http_status, code),
        _ => panic!("not an error"),
    })
}

#[test]
fn patches_must_name_the_replaced_version() {
    let id = uuid::Uuid::now_v7().to_string();
    assert_eq!(code(check_precondition("PATCH", None, Some("v1"), &id)), Some((428, "PRECONDITION_REQUIRED".into())));
    assert_eq!(code(check_precondition("POST", None, None, &id)), None);
    assert_eq!(code(check_precondition("PATCH", Some("v0"), Some("v1"), &id)), Some((412, "VERSION_CONFLICT".into())));
    assert_eq!(code(check_precondition("PATCH", Some("v0"), None, &id)), Some((404, "VERSION_CONFLICT".into())));
    assert_eq!(code(check_precondition("POST", None, Some("v1"), &id)), Some((412, "VERSION_CONFLICT".into())));
    assert_eq!(code(check_precondition("PATCH", Some("v1"), Some("v1"), &id)), None);
}

#[test]
fn error_replies_echo_only_valid_request_ids() {
    let id = uuid::Uuid::now_v7().to_string();
    match check_precondition("PATCH", None, None, &id).unwrap().body {
        ReplyBody::Error { request_id, .. } => assert_eq!(request_id, Some(id)),
        _ => panic!(),
    }
    match check_precondition("PATCH", None, None, "forged\nid").unwrap().body {
        ReplyBody::Error { request_id, .. } => assert_eq!(request_id, None),
        _ => panic!(),
    }
}

#[test]
fn normalization_gates_ordinary_writes() {
    assert_eq!(code(check_normalization("PATCH", true, "r")), Some((409, "NORMALIZATION_REQUIRED".into())));
    assert_eq!(code(check_normalization("NORMALIZE", true, "r")), None);
    assert_eq!(code(check_normalization("PATCH", false, "r")), None);
}

#[test]
fn built_results_must_match_their_target() {
    let facts = |kind: &str, id: &str, keeps: Option<bool>| BuiltFacts {
        kind: Some(kind.to_owned()),
        id: Some(id.to_owned()),
        keeps_created_at: keeps,
    };
    assert_eq!(code(check_result("card", "c1", &facts("milestone", "c1", None), false, "r")), Some((422, "TARGET_MISMATCH".into())));
    assert_eq!(code(check_result("card", "c1", &facts("card", "c1", Some(false)), false, "r")), Some((422, "IMMUTABLE_CREATED_AT".into())));
    assert_eq!(code(check_result("update", "u1", &facts("update", "u1", Some(true)), false, "r")), Some((422, "UPDATE_IMMUTABLE".into())));
    assert_eq!(code(check_result("update", "u1", &facts("update", "u1", Some(true)), true, "r")), None);
    assert_eq!(code(check_result("update", "u1", &facts("update", "u1", None), false, "r")), None);
}

#[test]
fn prepared_writes_recover_by_what_is_on_disk() {
    assert_eq!(recovery_action(Some("after"), "after", Some("before")), Recovery::Resync);
    assert_eq!(recovery_action(Some("before"), "after", Some("before")), Recovery::Replace);
    assert_eq!(recovery_action(None, "after", None), Recovery::Replace);
    assert_eq!(recovery_action(Some("other"), "after", Some("before")), Recovery::Review);
    assert_eq!(recovery_failure_state(&AppError::Store(StoreFailure::Conflict)), CommandState::NeedsReview);
    assert_eq!(recovery_failure_state(&AppError::reject(409, "X")), CommandState::Blocked);
}

#[test]
fn prepared_writes_need_their_references_unchanged() {
    let reference = |version: Option<&str>| project_application::writer::Reference {
        kind: DocKind::Card,
        id: "c1".into(),
        version: version.map(str::to_owned),
    };
    let refs = vec![reference(Some("v1")), reference(None)];
    assert!(project_application::writer::references_match(&refs, &vec![Some("v1".into()), None]));
    assert!(!project_application::writer::references_match(&refs, &vec![Some("v2".into()), None]));
    assert!(!project_application::writer::references_match(&refs, &vec![Some("v1".into()), Some("v0".into())]));
    assert!(!project_application::writer::references_match(&refs, &vec![Some("v1".into())]));
}

const REQ: &str = "01890a5d-ac96-774b-bcce-b302099a8057";

#[test]
fn a_write_passes_its_points_in_order() {
    let mut point = CommitPoint::Prepared;
    let mut seen = vec![point];
    while let Some(next) = next_point(point) {
        point = next;
        seen.push(point);
    }
    assert_eq!(
        seen,
        vec![
            CommitPoint::Prepared,
            CommitPoint::TempWritten,
            CommitPoint::TempSynced,
            CommitPoint::Renamed,
            CommitPoint::DirectorySynced,
            CommitPoint::Committed
        ]
    );
}

#[test]
fn a_failure_after_prepared_answers_prepared_never_a_rejection() {
    for point in [CommitPoint::Prepared, CommitPoint::TempSynced, CommitPoint::Renamed, CommitPoint::Committed] {
        match write_step(point, false, REQ) {
            WriteStep::Uncertain(r) => {
                assert_eq!(r.http_status, 202);
                assert!(matches!(r.body, ReplyBody::Progress { ref id, state: CommandState::Prepared } if id == REQ));
            },
            _ => panic!("a failed step was not answered as prepared"),
        }
    }
}

#[test]
fn a_write_that_reaches_committed_is_done() {
    assert!(matches!(write_step(CommitPoint::Prepared, true, REQ), WriteStep::Continue(CommitPoint::TempWritten)));
    assert!(matches!(write_step(CommitPoint::Renamed, true, REQ), WriteStep::Continue(CommitPoint::DirectorySynced)));
    assert!(matches!(write_step(CommitPoint::DirectorySynced, true, REQ), WriteStep::Continue(CommitPoint::Committed)));
    assert!(matches!(write_step(CommitPoint::Committed, true, REQ), WriteStep::Committed));
}

fn facts() -> WriteFacts {
    WriteFacts {
        method: "PATCH".into(),
        expected: Some("v1".into()),
        readable: true,
        before_version: Some("v1".into()),
        parsed: true,
        normalization_required: false,
        references_match: true,
        built: Ok(BuiltFacts { kind: Some("card".into()), id: Some("c1".into()), keeps_created_at: Some(true) }),
        same_as_previous: false,
        valid: true,
        serializable: true,
    }
}

fn refusal(o: CheckOutcome) -> (u16, String) {
    match o {
        CheckOutcome::Refused(r) => match r.body {
            ReplyBody::Error { code, .. } => (r.http_status, code),
            _ => panic!("not an error"),
        },
        _ => panic!("not refused"),
    }
}

#[test]
fn write_checks_run_in_the_writers_order() {
    assert!(matches!(check_write("card", "c1", facts(), REQ), CheckOutcome::Change));
    let mut f = facts();
    f.readable = false;
    f.expected = None;
    assert_eq!(refusal(check_write("card", "c1", f, REQ)), (409, "DOCUMENT_INVALID".into()));
    let mut f = facts();
    f.expected = None;
    f.parsed = false;
    assert_eq!(refusal(check_write("card", "c1", f, REQ)), (428, "PRECONDITION_REQUIRED".into()));
    let mut f = facts();
    f.expected = Some("v0".into());
    assert_eq!(refusal(check_write("card", "c1", f, REQ)), (412, "VERSION_CONFLICT".into()));
    let mut f = facts();
    f.parsed = false;
    f.normalization_required = true;
    assert_eq!(refusal(check_write("card", "c1", f, REQ)), (409, "DOCUMENT_INVALID".into()));
    let mut f = facts();
    f.normalization_required = true;
    f.references_match = false;
    assert_eq!(refusal(check_write("card", "c1", f, REQ)), (409, "NORMALIZATION_REQUIRED".into()));
    let mut f = facts();
    f.references_match = false;
    f.valid = false;
    assert_eq!(refusal(check_write("card", "c1", f, REQ)), (412, "REFERENCE_CHANGED".into()));
    let mut f = facts();
    f.built = Err(Reply::error(422, "PAYLOAD_INVALID", REQ));
    assert_eq!(refusal(check_write("card", "c1", f, REQ)), (422, "PAYLOAD_INVALID".into()));
    assert_eq!(refusal(check_write("card", "c2", facts(), REQ)), (422, "TARGET_MISMATCH".into()));
    let mut f = facts();
    f.valid = false;
    assert_eq!(refusal(check_write("card", "c1", f, REQ)), (422, "VALIDATION_FAILED".into()));
    let mut f = facts();
    f.serializable = false;
    assert_eq!(refusal(check_write("card", "c1", f, REQ)), (422, "DOCUMENT_LIMIT".into()));
}

#[test]
fn a_write_that_changes_nothing_is_a_noop() {
    let mut f = facts();
    f.same_as_previous = true;
    f.serializable = false;
    assert!(matches!(check_write("card", "c1", f, REQ), CheckOutcome::Noop));
    let mut f = facts();
    f.same_as_previous = true;
    f.method = "NORMALIZE".into();
    assert!(matches!(check_write("card", "c1", f, REQ), CheckOutcome::Change));
    assert_eq!(result_status(true), "noop");
    assert_eq!(result_status(false), "committed");
}

#[test]
fn a_change_is_recorded_before_any_durable_step() {
    let s = exec_start();
    let (s, a) = exec_step(s, ExecEvent::Admitted(None), REQ);
    assert!(matches!(a, ExecAction::CheckPending));
    let (s, a) = exec_step(s, ExecEvent::Pending(false), REQ);
    assert!(matches!(a, ExecAction::Check));
    let (s, a) = exec_step(s, ExecEvent::Checked(CheckOutcome::Change), REQ);
    assert!(matches!(a, ExecAction::RecordPrepared));
    assert_eq!(s, ExecState::RecordingPrepared);
    let (mut s, a) = exec_step(s, ExecEvent::Recorded(None), REQ);
    assert!(matches!(a, ExecAction::Write(CommitPoint::Prepared)));
    let mut points = vec![CommitPoint::Prepared];
    loop {
        let (next, a) = exec_step(s, ExecEvent::Reached(true), REQ);
        s = next;
        match a {
            ExecAction::Write(p) => points.push(p),
            ExecAction::AnswerRecorded => break,
            _ => panic!("unexpected action"),
        }
    }
    assert_eq!(points.len(), 6);
    assert_eq!(s, ExecState::Done);
}

#[test]
fn a_failed_record_answers_without_writing() {
    let (s, _) = exec_step(ExecState::Checking, ExecEvent::Checked(CheckOutcome::Change), REQ);
    let (s, a) = exec_step(s, ExecEvent::Failed(AppError::Invariant("database".into())), REQ);
    assert!(matches!(a, ExecAction::Fail(AppError::Invariant(_))));
    assert_eq!(s, ExecState::Done);
    let (s, a) = exec_step(s, ExecEvent::Reached(true), REQ);
    assert!(matches!(a, ExecAction::Fail(_)));
    assert_eq!(s, ExecState::Done);
}

#[test]
fn refusals_and_noops_are_recorded_and_answered_without_writing() {
    let (s, a) = exec_step(ExecState::Checking, ExecEvent::Checked(CheckOutcome::Refused(Reply::error(412, "VERSION_CONFLICT", REQ))), REQ);
    assert!(matches!(a, ExecAction::RecordRejection(ref r) if r.http_status == 412));
    let (s, a) = exec_step(s, ExecEvent::Recorded(None), REQ);
    assert!(matches!(a, ExecAction::AnswerRecorded));
    assert_eq!(s, ExecState::Done);
    let (s, a) = exec_step(ExecState::Checking, ExecEvent::Checked(CheckOutcome::Noop), REQ);
    assert!(matches!(a, ExecAction::RecordNoop));
    let (s, a) = exec_step(s, ExecEvent::Recorded(None), REQ);
    assert!(matches!(a, ExecAction::AnswerRecorded));
    assert_eq!(s, ExecState::Done);
    let (_, a) = exec_step(ExecState::RecordingNoop, ExecEvent::Recorded(Some(Reply::error(409, "X", REQ))), REQ);
    assert!(matches!(a, ExecAction::Answer(ref r) if r.http_status == 409));
}

#[test]
fn a_pending_project_is_refused_before_any_check() {
    let (s, a) = exec_step(ExecState::CheckingPending, ExecEvent::Pending(true), REQ);
    assert_eq!(s, ExecState::Done);
    match a {
        ExecAction::Answer(r) => {
            assert_eq!(r.http_status, 409);
            assert!(matches!(r.body, ReplyBody::Error { ref code, .. } if code == "PROJECT_RECOVERY_REQUIRED"));
        },
        _ => panic!("pending project not refused"),
    }
    let (s, a) = exec_step(ExecState::Writing(CommitPoint::Renamed), ExecEvent::Reached(false), REQ);
    assert_eq!(s, ExecState::Done);
    assert!(matches!(a, ExecAction::Answer(ref r) if r.http_status == 202));
}
