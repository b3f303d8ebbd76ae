//! The decisions of a conditional source write: which requests reach the
//! file, which results may be written, and how an interrupted write is
//! recovered. The caller holds the project's lock and does the I/O.
use crate::command_state::CommandState;
use crate::ids::canonical_uuid_spec;
use crate::mutation::DocKind;
use crate::reply::{AppError, Reply, ReplyBody, StoreFailure};
use crate::text::text_eq;
use vstd::prelude::*;

verus! {

/// The durable points of one write, in the order they are reached.
#[derive(Debug, Clone, Copy, PartialEq, Eq, Structural)]
pub enum CommitPoint {
    Prepared,
    TempWritten,
    TempSynced,
    Renamed,
    DirectorySynced,
    Committed,
}

/// The place of each durable point in a write.
pub open spec fn point_rank(p: CommitPoint) -> int {
    match p {
        CommitPoint::Prepared => 0,
        CommitPoint::TempWritten => 1,
        CommitPoint::TempSynced => 2,
        CommitPoint::Renamed => 3,
        CommitPoint::DirectorySynced => 4,
        CommitPoint::Committed => 5,
    }
}

/// The point a write reaches after `p`; none after `Committed`.
pub open spec fn next_point_spec(p: CommitPoint) -> Option<CommitPoint> {
    match p {
        CommitPoint::Prepared => Some(CommitPoint::TempWritten),
        CommitPoint::TempWritten => Some(CommitPoint::TempSynced),
        CommitPoint::TempSynced => Some(CommitPoint::Renamed),
        CommitPoint::Renamed => Some(CommitPoint::DirectorySynced),
        CommitPoint::DirectorySynced => Some(CommitPoint::Committed),
        CommitPoint::Committed => None,
    }
}

pub fn next_point(p: CommitPoint) -> (res: Option<CommitPoint>)
    ensures
        res == next_point_spec(p),
{
    match p {
        CommitPoint::Prepared => Some(CommitPoint::TempWritten),
        CommitPoint::TempWritten => Some(CommitPoint::TempSynced),
        CommitPoint::TempSynced => Some(CommitPoint::Renamed),
        CommitPoint::Renamed => Some(CommitPoint::DirectorySynced),
        CommitPoint::DirectorySynced => Some(CommitPoint::Committed),
        CommitPoint::Committed => None,
    }
}

/// A write passes its durable points once each, in order: it starts at
/// `Prepared`, each point leads to the one ranked next, and only
/// `Committed`, the last, leads nowhere.
pub proof fn lemma_points_in_order(p: CommitPoint)
    ensures
        point_rank(CommitPoint::Prepared) == 0,
        0 <= point_rank(p) <= 5,
        next_point_spec(p) matches Some(n) ==> point_rank(n) == point_rank(p) + 1,
        next_point_spec(p) is None <==> p == CommitPoint::Committed,
        point_rank(p) == 5 <==> p == CommitPoint::Committed,
{
}

/// The answer to a command whose write is uncertain: `202`, prepared.
pub open spec fn is_prepared_reply(r: Reply, request_id: Seq<char>) -> bool {
    &&& r.http_status == 202
    &&& r.body matches ReplyBody::Progress { id, state }
    &&& id@ == request_id
    &&& state == CommandState::Prepared
}

/// What a write does once the step toward `point` has run.
pub enum WriteStep {
    /// Go on toward this point.
    Continue(CommitPoint),
    /// The write is uncertain: answer with this reply.
    Uncertain(Reply),
    /// The write is durable: answer with the reply it planned.
    Committed,
}

/// One step of a prepared write, from the point it tried to reach and
/// whether it got there. Anything failing after the command was prepared is
/// uncertain: the answer is `202` with the command `prepared`, never a
/// rejection, and nothing is rolled back. A write that reached `Committed`
/// is done; any other point goes on to the next.
pub fn write_step(point: CommitPoint, reached: bool, request_id: &str) -> (res: WriteStep)
    ensures
        !reached ==> (res matches WriteStep::Uncertain(r) && is_prepared_reply(r, request_id@)),
        reached && point == CommitPoint::Committed ==> res is Committed,
        reached && point != CommitPoint::Committed ==> (res matches WriteStep::Continue(n) && next_point_spec(point) == Some(n)),
{
    if !reached {
        return WriteStep::Uncertain(Reply::progress(request_id, CommandState::Prepared));
    }
    match next_point(point) {
        Some(n) => WriteStep::Continue(n),
        None => WriteStep::Committed,
    }
}

/// An error reply for `request_id` with this status and code.
pub open spec fn is_error_reply(reply: Reply, status: u16, code: Seq<char>, request_id: Seq<char>) -> bool {
    &&& reply.http_status == status
    &&& reply.body matches ReplyBody::Error { code: c, request_id: r }
    &&& c@ == code
    &&& if canonical_uuid_spec(request_id, 7) {
        r matches Some(id) && id@ == request_id
    } else {
        r is None
    }
}

pub open spec fn opt_text(o: Option<&str>) -> Option<Seq<char>> {
    match o {
        Some(s) => Some(s@),
        None => None,
    }
}

fn same_opt(a: Option<&str>, b: Option<&str>) -> (res: bool)
    ensures
        res == (opt_text(a) == opt_text(b)),
{
    match (a, b) {
        (None, None) => true,
        (Some(x), Some(y)) => text_eq(x, y),
        _ => false,
    }
}

/// The refusal of a write by its preconditions, if any: a request other
/// than `POST` must name the version it replaces (`428
/// PRECONDITION_REQUIRED`), and the named version must be the one on disk
/// (`VERSION_CONFLICT`: `404` when the file is gone, `412` otherwise).
pub open spec fn precondition_refusal(method: Seq<char>, expected: Option<Seq<char>>, before: Option<Seq<char>>) -> Option<(u16, Seq<char>)> {
    if method != "POST"@ && expected is None {
        Some((428u16, "PRECONDITION_REQUIRED"@))
    } else if expected != before {
        Some((if before is None && expected is Some { 404u16 } else { 412u16 }, "VERSION_CONFLICT"@))
    } else {
        None
    }
}

pub fn check_precondition(method: &str, expected: Option<&str>, before_version: Option<&str>, request_id: &str) -> (res: Option<Reply>)
    ensures
        match precondition_refusal(method@, opt_text(expected), opt_text(before_version)) {
            Some((status, code)) => res matches Some(r) && is_error_reply(r, status, code, request_id@),
            None => res is None,
        },
{
    if !text_eq(method, "POST") && expected.is_none() {
        return Some(Reply::error(428, "PRECONDITION_REQUIRED", request_id));
    }
    if !same_opt(expected, before_version) {
        let status: u16 = if before_version.is_none() && expected.is_some() { 404 } else { 412 };
        return Some(Reply::error(status, "VERSION_CONFLICT", request_id));
    }
    None
}

/// A source that needs normalization accepts only the normalizing request.
pub fn check_normalization(method: &str, normalization_required: bool, request_id: &str) -> (res: Option<Reply>)
    ensures
        (method@ != "NORMALIZE"@ && normalization_required) ==> (res matches Some(r)
            && is_error_reply(r, 409, "NORMALIZATION_REQUIRED"@, request_id@)),
        !(method@ != "NORMALIZE"@ && normalization_required) ==> res is None,
{
    if !text_eq(method, "NORMALIZE") && normalization_required {
        Some(Reply::error(409, "NORMALIZATION_REQUIRED", request_id))
    } else {
        None
    }
}

/// What a built result is checked for against its target and its previous
/// version.
pub struct BuiltFacts {
    /// The result's `type`, when it is a string.
    pub kind: Option<String>,
    /// The result's `metadata.id`, when it is a string.
    pub id: Option<String>,
    /// Whether the result keeps the previous `metadata.created_at`; `None`
    /// when there is no previous version.
    pub keeps_created_at: Option<bool>,
}

/// The refusal of a built result, if any, in the order checked: it must
/// describe the target (`TARGET_MISMATCH`), keep its creation time
/// (`IMMUTABLE_CREATED_AT`), and an existing update changes only by
/// normalization (`UPDATE_IMMUTABLE`). All are `422`.
pub open spec fn result_refusal(kind: Seq<char>, id: Seq<char>, facts: BuiltFacts, normalize: bool) -> Option<Seq<char>> {
    if !(facts.kind matches Some(k) && k@ == kind) || !(facts.id matches Some(i) && i@ == id) {
        Some("TARGET_MISMATCH"@)
    } else if facts.keeps_created_at == Some(false) {
        Some("IMMUTABLE_CREATED_AT"@)
    } else if facts.keeps_created_at is Some && kind == "update"@ && !normalize {
        Some("UPDATE_IMMUTABLE"@)
    } else {
        None
    }
}

pub fn check_result(kind: &str, id: &str, facts: &BuiltFacts, normalize: bool, request_id: &str) -> (res: Option<Reply>)
    ensures
        match result_refusal(kind@, id@, *facts, normalize) {
            Some(code) => res matches Some(r) && is_error_reply(r, 422, code, request_id@),
            None => res is None,
        },
{
    let kind_ok = match &facts.kind {
        Some(k) => text_eq(k.as_str(), kind),
        None => false,
    };
    let id_ok = match &facts.id {
        Some(i) => text_eq(i.as_str(), id),
        None => false,
    };
    if !kind_ok || !id_ok {
        return Some(Reply::error(422, "TARGET_MISMATCH", request_id));
    }
    match facts.keeps_created_at {
        Some(false) => Some(Reply::error(422, "IMMUTABLE_CREATED_AT", request_id)),
        Some(true) => if text_eq(kind, "update") && !normalize {
            Some(Reply::error(422, "UPDATE_IMMUTABLE", request_id))
        } else {
            None
        },
        None => None,
    }
}

/// What recovering a prepared write does.
#[derive(Debug, Clone, Copy, PartialEq, Eq, Structural)]
pub enum Recovery {
    /// The new bytes are already in place; make them durable.
    Resync,
    /// The old bytes are still in place; write the new ones.
    Replace,
    /// The file holds neither; a person must decide.
    Review,
}

pub open spec fn recovery_spec(actual: Option<Seq<char>>, after: Seq<char>, before: Option<Seq<char>>) -> Recovery {
    if actual == Some(after) {
        Recovery::Resync
    } else if actual == before {
        Recovery::Replace
    } else {
        Recovery::Review
    }
}

/// Decides a prepared write's recovery from the version now on disk, the
/// version it writes and the version it replaces.
pub fn recovery_action(actual: Option<&str>, after: &str, before: Option<&str>) -> (res: Recovery)
    ensures
        res == recovery_spec(opt_text(actual), after@, opt_text(before)),
{
    if same_opt(actual, Some(after)) {
        Recovery::Resync
    } else if same_opt(actual, before) {
        Recovery::Replace
    } else {
        Recovery::Review
    }
}

/// The state a prepared command takes when its recovery fails: store
/// failures that say the tree or bytes are not as expected need review;
/// anything else blocks it until a retry.
pub open spec fn recovery_failure_spec(error: AppError) -> CommandState {
    if (error matches AppError::Store(StoreFailure::Invalid { .. })) || (error matches AppError::Store(StoreFailure::Conflict)) {
        CommandState::NeedsReview
    } else {
        CommandState::Blocked
    }
}

pub fn recovery_failure_state(error: &AppError) -> (res: CommandState)
    ensures
        res == recovery_failure_spec(*error),
{
    match error {
        AppError::Store(StoreFailure::Invalid { .. }) => CommandState::NeedsReview,
        AppError::Store(StoreFailure::Conflict) => CommandState::NeedsReview,
        _ => CommandState::Blocked,
    }
}

/// A document a write depends on, and the version it had when the write
/// was prepared (`None` when it did not exist).
pub struct Reference {
    pub kind: DocKind,
    pub id: String,
    pub version: Option<String>,
}

pub open spec fn opt_string(o: Option<String>) -> Option<Seq<char>> {
    match o {
        Some(s) => Some(s@),
        None => None,
    }
}

/// Whether every reference still reads as recorded: `observed` holds, in
/// order, the version each reference's document has now.
pub fn references_match(references: &Vec<Reference>, observed: &Vec<Option<String>>) -> (res: bool)
    ensures
        res == (references@.len() == observed@.len() && forall|i: int| 0 <= i < references@.len()
            ==> opt_string((#[trigger] references@[i]).version) == opt_string(observed@[i])),
{
    if references.len() != observed.len() {
        return false;
    }
    let mut i: usize = 0;
    while i < references.len()
        invariant
            i <= references@.len(),
            references@.len() == observed@.len(),
            forall|j: int| 0 <= j < i ==> opt_string((#[trigger] references@[j]).version) == opt_string(observed@[j]),
        decreases references@.len() - i,
    {
        let same = match (&references[i].version, &observed[i]) {
            (Some(a), Some(b)) => text_eq(a.as_str(), b.as_str()),
            (None, None) => true,
            _ => false,
        };
        if !same {
            return false;
        }
        i = i + 1;
    }
    true
}

/// What a conditional write has learned about its source and its result
/// before anything is recorded.
pub struct WriteFacts {
    pub method: String,
    /// The version the request names, if any.
    pub expected: Option<String>,
    /// Whether the source could be read.
    pub readable: bool,
    /// The version of the source on disk, when it exists.
    pub before_version: Option<String>,
    /// Whether the existing source parsed (true when there is none).
    pub parsed: bool,
    pub normalization_required: bool,
    /// Whether the documents the request was checked against are unchanged.
    pub references_match: bool,
    /// The facts of the result the request builds, or the reply with which
    /// building refused it.
    pub built: Result<BuiltFacts, Reply>,
    /// Whether the built result equals the previous version.
    pub same_as_previous: bool,
    /// Whether the result passes validation.
    pub valid: bool,
    /// Whether the result fits the document limits once serialized.
    pub serializable: bool,
}

/// A write that changes nothing: not a normalization, and the result equals
/// the previous version.
pub open spec fn noop_spec(method: Seq<char>, same_as_previous: bool) -> bool {
    method != "NORMALIZE"@ && same_as_previous
}

/// The refusals found before the result is built, in the order checked: an
/// unreadable source (`409 DOCUMENT_INVALID`), the preconditions
/// (`PRECONDITION_REQUIRED`, `VERSION_CONFLICT`), a source that does not
/// parse (`409 DOCUMENT_INVALID`), a pending normalization (`409
/// NORMALIZATION_REQUIRED`), and changed references (`412
/// REFERENCE_CHANGED`).
pub open spec fn early_refusal(f: WriteFacts) -> Option<(u16, Seq<char>)> {
    let expected = match f.expected {
        Some(e) => Some(e@),
        None => None,
    };
    let before = match f.before_version {
        Some(b) => Some(b@),
        None => None,
    };
    if !f.readable {
        Some((409u16, "DOCUMENT_INVALID"@))
    } else if precondition_refusal(f.method@, expected, before) is Some {
        precondition_refusal(f.method@, expected, before)
    } else if !f.parsed {
        Some((409u16, "DOCUMENT_INVALID"@))
    } else if f.method@ != "NORMALIZE"@ && f.normalization_required {
        Some((409u16, "NORMALIZATION_REQUIRED"@))
    } else if !f.references_match {
        Some((412u16, "REFERENCE_CHANGED"@))
    } else {
        None
    }
}

/// The refusals found once the result is built, in the order checked: the
/// result's own (`result_refusal`), failed validation (`422
/// VALIDATION_FAILED`), and a changed result beyond the document limits
/// (`422 DOCUMENT_LIMIT`). All are `422`.
pub open spec fn late_refusal(kind: Seq<char>, id: Seq<char>, facts: BuiltFacts, f: WriteFacts) -> Option<Seq<char>> {
    let normalize = f.method@ == "NORMALIZE"@;
    if result_refusal(kind, id, facts, normalize) is Some {
        result_refusal(kind, id, facts, normalize)
    } else if !f.valid {
        Some("VALIDATION_FAILED"@)
    } else if !noop_spec(f.method@, f.same_as_previous) && !f.serializable {
        Some("DOCUMENT_LIMIT"@)
    } else {
        None
    }
}

/// What the checks decide about a write.
pub enum CheckOutcome {
    /// Refused with this reply, which is recorded as a rejection.
    Refused(Reply),
    /// Nothing changes: recorded as committed with status `noop`, never
    /// written.
    Noop,
    /// A change: recorded as prepared, then written.
    Change,
}

/// Runs the checks of a write on what it learned, in the order the write
/// meets them; the first refusal wins. A write that passes them all is a
/// noop or a change.
pub fn check_write(kind: &str, id: &str, facts: WriteFacts, request_id: &str) -> (res: CheckOutcome)
    ensures
        early_refusal(facts) matches Some((status, code)) ==> (res matches CheckOutcome::Refused(r) && is_error_reply(r, status, code, request_id@)),
        early_refusal(facts) is None ==> match facts.built {
            Err(b) => res == CheckOutcome::Refused(b),
            Ok(bf) => match late_refusal(kind@, id@, bf, facts) {
                Some(code) => res matches CheckOutcome::Refused(r) && is_error_reply(r, 422, code, request_id@),
                None => if noop_spec(facts.method@, facts.same_as_previous) {
                    res is Noop
                } else {
                    res is Change
                },
            },
        },
{
    let ghost f = facts;
    if !facts.readable {
        return CheckOutcome::Refused(Reply::error(409, "DOCUMENT_INVALID", request_id));
    }
    let expected: Option<&str> = match &facts.expected {
        Some(e) => Some(e.as_str()),
        None => None,
    };
    let before: Option<&str> = match &facts.before_version {
        Some(b) => Some(b.as_str()),
        None => None,
    };
    if let Some(r) = check_precondition(facts.method.as_str(), expected, before, request_id) {
        return CheckOutcome::Refused(r);
    }
    if !facts.parsed {
        return CheckOutcome::Refused(Reply::error(409, "DOCUMENT_INVALID", request_id));
    }
    if let Some(r) = check_normalization(facts.method.as_str(), facts.normalization_required, request_id) {
        return CheckOutcome::Refused(r);
    }
    if !facts.references_match {
        return CheckOutcome::Refused(Reply::error(412, "REFERENCE_CHANGED", request_id));
    }
    let normalize = text_eq(facts.method.as_str(), "NORMALIZE");
    let noop = !normalize && facts.same_as_previous;
    let valid = facts.valid;
    let serializable = facts.serializable;
    match facts.built {
        Err(b) => CheckOutcome::Refused(b),
        Ok(bf) => {
            if let Some(r) = check_result(kind, id, &bf, normalize, request_id) {
                return CheckOutcome::Refused(r);
            }
            if !valid {
                return CheckOutcome::Refused(Reply::error(422, "VALIDATION_FAILED", request_id));
            }
            if !noop && !serializable {
                return CheckOutcome::Refused(Reply::error(422, "DOCUMENT_LIMIT", request_id));
            }
            if noop {
                CheckOutcome::Noop
            } else {
                CheckOutcome::Change
            }
        },
    }
}

/// The status a write's reply carries: `noop` when nothing changed,
/// `committed` otherwise.
pub fn result_status(noop: bool) -> (res: &'static str)
    ensures
        res@ == (if noop { "noop"@ } else { "committed"@ }),
{
    if noop {
        "noop"
    } else {
        "committed"
    }
}

/// Where a conditional write stands.
#[derive(Debug, Clone, Copy, PartialEq, Eq, Structural)]
pub enum ExecState {
    /// Waiting for the journal to admit the command.
    Admitting,
    /// Waiting to learn whether the project has a pending write.
    CheckingPending,
    /// Waiting for the checks on the source and the built result.
    Checking,
    /// Waiting for the journal to record the refusal.
    RecordingRejection,
    /// Waiting for the journal to record a write that changes nothing.
    RecordingNoop,
    /// Waiting for the journal to record the write as prepared.
    RecordingPrepared,
    /// Performing the step toward this durable point.
    Writing(CommitPoint),
    /// Answered.
    Done,
}

/// What the outside work of the last action produced.
pub enum ExecEvent {
    /// The journal's admission: a reply when the command is answered at
    /// once (another epoch, known, or outside the window).
    Admitted(Option<Reply>),
    /// Whether the project has an unresolved write.
    Pending(bool),
    /// What the checks decided.
    Checked(CheckOutcome),
    /// The journal recorded the command; `Some` with the reply it already
    /// held when another attempt recorded it first.
    Recorded(Option<Reply>),
    /// Whether the step toward the current durable point got there.
    Reached(bool),
    /// An outside operation failed.
    Failed(AppError),
}

/// What to do next.
pub enum ExecAction {
    /// Ask whether the project has an unresolved write.
    CheckPending,
    /// Read the source, build the result and run the checks.
    Check,
    /// Record the command as rejected with this reply.
    RecordRejection(Reply),
    /// Record the command as committed with its `noop` reply.
    RecordNoop,
    /// Record the command as prepared, with its write intent.
    RecordPrepared,
    /// Perform the step toward this durable point.
    Write(CommitPoint),
    /// Answer with this reply.
    Answer(Reply),
    /// Answer with the reply that was just recorded.
    AnswerRecorded,
    /// Fail with this error.
    Fail(AppError),
}

/// The state after `event` in `state`. Every refusal, answer and failure
/// ends the write; only a successful prepared record starts writing.
pub open spec fn exec_next(state: ExecState, event: ExecEvent) -> ExecState {
    match state {
        ExecState::Admitting => if event matches ExecEvent::Admitted(None) {
            ExecState::CheckingPending
        } else {
            ExecState::Done
        },
        ExecState::CheckingPending => if event matches ExecEvent::Pending(false) {
            ExecState::Checking
        } else {
            ExecState::Done
        },
        ExecState::Checking => match event {
            ExecEvent::Checked(CheckOutcome::Refused(_)) => ExecState::RecordingRejection,
            ExecEvent::Checked(CheckOutcome::Noop) => ExecState::RecordingNoop,
            ExecEvent::Checked(CheckOutcome::Change) => ExecState::RecordingPrepared,
            _ => ExecState::Done,
        },
        ExecState::RecordingPrepared => if event matches ExecEvent::Recorded(None) {
            ExecState::Writing(CommitPoint::Prepared)
        } else {
            ExecState::Done
        },
        ExecState::Writing(p) => if event matches ExecEvent::Reached(true) {
            match next_point_spec(p) {
                Some(n) => ExecState::Writing(n),
                None => ExecState::Done,
            }
        } else {
            ExecState::Done
        },
        _ => ExecState::Done,
    }
}

/// The first action of a write: its state waits for the journal to admit
/// the command, which the caller asks before anything else.
pub fn exec_start() -> (res: ExecState)
    ensures
        res == ExecState::Admitting,
{
    ExecState::Admitting
}

/// An event that does not belong to the state it came in.
fn out_of_order() -> AppError {
    AppError::invariant_failed("write protocol")
}

/// One step of a conditional write: from where it stands and what the last
/// outside work produced, the next state and what to do. The order is the
/// write's: admission, the pending check, the checks, the record, and only
/// then the durable steps.
pub fn exec_step(state: ExecState, event: ExecEvent, request_id: &str) -> (res: (ExecState, ExecAction))
    ensures
        res.0 == exec_next(state, event),
        res.1 is Write <==> res.0 is Writing,
        res.0 matches ExecState::Writing(p) ==> res.1 == ExecAction::Write(p),
        state == ExecState::Admitting ==> match event {
            ExecEvent::Admitted(Some(r)) => res.1 == ExecAction::Answer(r),
            ExecEvent::Admitted(None) => res.1 is CheckPending,
            ExecEvent::Failed(e) => res.1 == ExecAction::Fail(e),
            _ => res.1 is Fail,
        },
        state == ExecState::CheckingPending ==> match event {
            ExecEvent::Pending(true) => res.1 matches ExecAction::Answer(r) && is_error_reply(r, 409, "PROJECT_RECOVERY_REQUIRED"@, request_id@),
            ExecEvent::Pending(false) => res.1 is Check,
            ExecEvent::Failed(e) => res.1 == ExecAction::Fail(e),
            _ => res.1 is Fail,
        },
        state == ExecState::Checking ==> match event {
            ExecEvent::Checked(CheckOutcome::Refused(r)) => res.1 == ExecAction::RecordRejection(r),
            ExecEvent::Checked(CheckOutcome::Noop) => res.1 is RecordNoop,
            ExecEvent::Checked(CheckOutcome::Change) => res.1 is RecordPrepared,
            ExecEvent::Failed(e) => res.1 == ExecAction::Fail(e),
            _ => res.1 is Fail,
        },
        (state == ExecState::RecordingRejection || state == ExecState::RecordingNoop || state == ExecState::RecordingPrepared)
            ==> match event {
            ExecEvent::Recorded(Some(r)) => res.1 == ExecAction::Answer(r),
            ExecEvent::Recorded(None) => if state == ExecState::RecordingPrepared {
                res.1 == ExecAction::Write(CommitPoint::Prepared)
            } else {
                res.1 is AnswerRecorded
            },
            ExecEvent::Failed(e) => res.1 == ExecAction::Fail(e),
            _ => res.1 is Fail,
        },
        state matches ExecState::Writing(p) ==> match event {
            ExecEvent::Reached(true) => if p == CommitPoint::Committed {
                res.1 is AnswerRecorded
            } else {
                res.1 is Write
            },
            _ => res.1 matches ExecAction::Answer(r) && is_prepared_reply(r, request_id@),
        },
        state == ExecState::Done ==> res.1 is Fail,
{
    let done = ExecState::Done;
    match state {
        ExecState::Admitting => match event {
            ExecEvent::Admitted(Some(r)) => (done, ExecAction::Answer(r)),
            ExecEvent::Admitted(None) => (ExecState::CheckingPending, ExecAction::CheckPending),
            ExecEvent::Failed(e) => (done, ExecAction::Fail(e)),
            _ => (done, ExecAction::Fail(out_of_order())),
        },
        ExecState::CheckingPending => match event {
            ExecEvent::Pending(true) => (done, ExecAction::Answer(Reply::error(409, "PROJECT_RECOVERY_REQUIRED", request_id))),
            ExecEvent::Pending(false) => (ExecState::Checking, ExecAction::Check),
            ExecEvent::Failed(e) => (done, ExecAction::Fail(e)),
            _ => (done, ExecAction::Fail(out_of_order())),
        },
        ExecState::Checking => match event {
            ExecEvent::Checked(CheckOutcome::Refused(r)) => (ExecState::RecordingRejection, ExecAction::RecordRejection(r)),
            ExecEvent::Checked(CheckOutcome::Noop) => (ExecState::RecordingNoop, ExecAction::RecordNoop),
            ExecEvent::Checked(CheckOutcome::Change) => (ExecState::RecordingPrepared, ExecAction::RecordPrepared),
            ExecEvent::Failed(e) => (done, ExecAction::Fail(e)),
            _ => (done, ExecAction::Fail(out_of_order())),
        },
        ExecState::RecordingRejection | ExecState::RecordingNoop | ExecState::RecordingPrepared => match event {
            ExecEvent::Recorded(Some(r)) => (done, ExecAction::Answer(r)),
            ExecEvent::Recorded(None) => if state == ExecState::RecordingPrepared {
                (ExecState::Writing(CommitPoint::Prepared), ExecAction::Write(CommitPoint::Prepared))
            } else {
                (done, ExecAction::AnswerRecorded)
            },
            ExecEvent::Failed(e) => (done, ExecAction::Fail(e)),
            _ => (done, ExecAction::Fail(out_of_order())),
        },
        ExecState::Writing(p) => {
            let reached = match event {
                ExecEvent::Reached(true) => true,
                _ => false,
            };
            match write_step(p, reached, request_id) {
                WriteStep::Continue(n) => (ExecState::Writing(n), ExecAction::Write(n)),
                WriteStep::Uncertain(r) => (done, ExecAction::Answer(r)),
                WriteStep::Committed => (done, ExecAction::AnswerRecorded),
            }
        },
        ExecState::Done => (done, ExecAction::Fail(out_of_order())),
    }
}

/// The checks decided that the write changes its source.
pub open spec fn decided_change(e: ExecEvent) -> bool {
    e matches ExecEvent::Checked(CheckOutcome::Change)
}

/// The journal recorded the command afresh.
pub open spec fn recorded_fresh(e: ExecEvent) -> bool {
    e matches ExecEvent::Recorded(None)
}

/// The state a write reaches from the start through these events.
pub open spec fn exec_after(events: Seq<ExecEvent>) -> ExecState
    decreases events.len(),
{
    if events.len() == 0 {
        ExecState::Admitting
    } else {
        exec_next(exec_after(events.drop_last()), events.last())
    }
}

/// The state in which the write meets its `k`th event.
pub open spec fn exec_before(events: Seq<ExecEvent>, k: int) -> ExecState {
    exec_after(events.take(k))
}

proof fn lemma_exec_before_next(events: Seq<ExecEvent>, k: int)
    requires
        0 <= k < events.len(),
    ensures
        exec_before(events, k + 1) == exec_next(exec_before(events, k), events[k]),
{
    assert(events.take(k + 1).drop_last() =~= events.take(k));
    assert(events.take(k + 1).last() == events[k]);
}

/// The states a write goes through rank one after another; only an answer
/// ends it, and nothing follows the end.
pub open spec fn exec_rank(s: ExecState) -> int {
    match s {
        ExecState::Admitting => 0,
        ExecState::CheckingPending => 1,
        ExecState::Checking => 2,
        ExecState::RecordingRejection => 3,
        ExecState::RecordingNoop => 3,
        ExecState::RecordingPrepared => 3,
        ExecState::Writing(p) => 4 + point_rank(p),
        ExecState::Done => 10,
    }
}

proof fn lemma_exec_writing_entered(events: Seq<ExecEvent>, k: int)
    requires
        0 <= k <= events.len(),
        exec_before(events, k) is Writing,
    ensures
        exists|j: int| 0 <= j < k && exec_before(events, j) == ExecState::RecordingPrepared && recorded_fresh(#[trigger] events[j]),
    decreases k,
{
    if k == 0 {
        assert(events.take(0) =~= Seq::<ExecEvent>::empty());
    } else {
        lemma_exec_before_next(events, k - 1);
        let s = exec_before(events, k - 1);
        if s is Writing {
            lemma_exec_writing_entered(events, k - 1);
        } else {
            assert(s == ExecState::RecordingPrepared && recorded_fresh(events[k - 1]));
        }
    }
}

proof fn lemma_exec_prepared_entered(events: Seq<ExecEvent>, j: int)
    requires
        0 <= j <= events.len(),
        exec_before(events, j) == ExecState::RecordingPrepared,
    ensures
        0 < j,
        exec_before(events, j - 1) == ExecState::Checking,
        decided_change(events[j - 1]),
{
    if j == 0 {
        assert(events.take(0) =~= Seq::<ExecEvent>::empty());
    } else {
        lemma_exec_before_next(events, j - 1);
    }
}

/// No write without a durable record: in any run of a write, a step that
/// moves to a durable point comes after the checks decided on a change and
/// the journal recorded the command as prepared, in that order.
pub proof fn lemma_write_follows_record(events: Seq<ExecEvent>, k: int)
    requires
        0 <= k < events.len(),
        exec_next(exec_before(events, k), events[k]) is Writing,
    ensures
        exists|i: int, j: int|
            #![trigger events[i], events[j]]
            0 <= i < j <= k && exec_before(events, i) == ExecState::Checking
                && decided_change(events[i])
                && exec_before(events, j) == ExecState::RecordingPrepared && recorded_fresh(events[j]),
{
    lemma_exec_before_next(events, k);
    lemma_exec_writing_entered(events, k + 1);
    let j = choose|j: int| 0 <= j < k + 1 && exec_before(events, j) == ExecState::RecordingPrepared && recorded_fresh(#[trigger] events[j]);
    lemma_exec_prepared_entered(events, j);
    let i = j - 1;
    assert(decided_change(events[i]));
}

/// A write never goes back: each event moves it to a later state or ends
/// it, and once it has answered it stays answered, writing nothing more.
pub proof fn lemma_exec_forward(events: Seq<ExecEvent>, k: int)
    requires
        0 <= k < events.len(),
    ensures
        exec_before(events, k) != ExecState::Done ==> exec_rank(exec_before(events, k + 1)) > exec_rank(exec_before(events, k)),
        exec_before(events, k) == ExecState::Done ==> exec_before(events, k + 1) == ExecState::Done,
{
    lemma_exec_before_next(events, k);
    let s = exec_before(events, k);
    if let ExecState::Writing(p) = s {
        lemma_points_in_order(p);
    }
}

/// A write whose checks refuse it or find nothing to change never writes:
/// once the checks have decided so, no later step moves to a durable point.
pub proof fn lemma_no_write_without_change(events: Seq<ExecEvent>, c: int, k: int)
    requires
        0 <= c < events.len(),
        exec_before(events, c) == ExecState::Checking,
        !decided_change(events[c]),
        0 <= k < events.len(),
    ensures
        !(exec_next(exec_before(events, k), events[k]) is Writing),
{
    if exec_next(exec_before(events, k), events[k]) is Writing {
        lemma_write_follows_record(events, k);
        let (i, j) = choose|i: int, j: int|
            #![trigger events[i], events[j]]
            0 <= i < j <= k && exec_before(events, i) == ExecState::Checking
                && decided_change(events[i])
                && exec_before(events, j) == ExecState::RecordingPrepared && recorded_fresh(events[j]);
        assert(i != c);
        lemma_exec_rank_grows(events, if i < c { i } else { c }, if i < c { c } else { i });
    }
}

proof fn lemma_exec_rank_grows(events: Seq<ExecEvent>, a: int, b: int)
    requires
        0 <= a < b <= events.len(),
        exec_before(events, a) != ExecState::Done,
    ensures
        exec_rank(exec_before(events, b)) > exec_rank(exec_before(events, a)),
    decreases b - a,
{
    lemma_exec_forward(events, a);
    if b > a + 1 {
        if exec_before(events, a + 1) == ExecState::Done {
            lemma_exec_stays_done(events, a + 1, b);
        } else {
            lemma_exec_rank_grows(events, a + 1, b);
        }
    }
}

proof fn lemma_exec_stays_done(events: Seq<ExecEvent>, a: int, b: int)
    requires
        0 <= a <= b <= events.len(),
        exec_before(events, a) == ExecState::Done,
    ensures
        exec_before(events, b) == ExecState::Done,
    decreases b - a,
{
    if b > a {
        lemma_exec_forward(events, a);
        lemma_exec_stays_done(events, a + 1, b);
    }
}

/// How a change that passed its checks is recorded and whether it writes.
pub struct RecordPlan {
    /// The status its reply carries.
    pub status: &'static str,
    /// The state it is recorded in.
    pub state: CommandState,
    /// Whether source bytes are written.
    pub writes: bool,
}

/// A change that alters nothing is recorded committed, with status `noop`,
/// and writes nothing; any other is recorded prepared, with status
/// `committed`, and then written.
pub fn record_plan(noop: bool) -> (res: RecordPlan)
    ensures
        noop ==> res.status@ == "noop"@ && res.state == CommandState::Committed && !res.writes,
        !noop ==> res.status@ == "committed"@ && res.state == CommandState::Prepared && res.writes,
{
    if noop {
        RecordPlan { status: "noop", state: CommandState::Committed, writes: false }
    } else {
        RecordPlan { status: "committed", state: CommandState::Prepared, writes: true }
    }
}

} // verus!
