//! The command journal's rules: how a retried request is answered from what
//! was recorded, which fresh requests are admitted under the durable clock
//! floor, the state a recorded command takes, and how much optional history
//! a retention pass removes.
use crate::clock::{instant, rfc3339_millis, MAX_INSTANT, MIN_INSTANT};
use crate::command_state::{parse_command_state, CommandState};
use crate::ids::{canonical_uuid, canonical_uuid_spec, request_millis, request_millis_spec, uuid_parse_spec, uuid_parses, valid_request_id};
use crate::reply::{AppError, Reply, ReplyBody};
use crate::text::{parse_i64, parse_i64_spec, text_eq, text_lt, text_less};
use crate::writer::is_error_reply;
use vstd::prelude::*;
use vstd::string::StringSliceAdditionalSpecFns;

verus! {

/// How far a clock may run behind the admission floor, in milliseconds.
pub const CLOCK_SLACK: i64 = 300_000;

/// How long a request ID stays admissible, in milliseconds.
pub const REQUEST_WINDOW: i64 = 86_400_000;

/// How long a terminal reply is kept for replay, in milliseconds.
pub const RESULT_RETENTION: i64 = 604_800_000;

/// How long optional history is kept, in milliseconds.
pub const HISTORY_AGE: i64 = 2_592_000_000;

/// How many bytes of history are kept regardless of age.
pub const HISTORY_BUDGET: i64 = 1_073_741_824;

/// A command row as the journal stored it.
pub struct StoredCommand {
    pub digest: String,
    pub state: String,
    pub result: Option<String>,
    pub error: Option<String>,
}

/// The answer to a request the journal already knows.
pub enum Known {
    /// A reply composed now: a digest mismatch or a command in progress.
    Reply(Reply),
    /// The stored JSON of a terminal reply, replayed as it was recorded.
    Replay(String),
}

pub open spec fn opt_view(o: Option<String>) -> Option<Seq<char>> {
    match o {
        Some(s) => Some(s@),
        None => None,
    }
}

/// What a known command is answered with, or the error that reading it
/// meets. A different payload under the same ID is `409
/// IDEMPOTENCY_KEY_REUSED`; a terminal command replays its stored reply
/// (`result` when committed, `error` when rejected); any other command is
/// in progress.
pub open spec fn known_spec(stored: StoredCommand, digest: Seq<char>, request_id: Seq<char>, res: Result<Known, AppError>) -> bool {
    if stored.digest@ != digest {
        res matches Ok(Known::Reply(r)) && is_error_reply(r, 409, "IDEMPOTENCY_KEY_REUSED"@, request_id)
    } else {
        match parse_command_state(stored.state@) {
            None => res matches Err(e) && e matches AppError::Invariant(c) && c@ == "stored command state"@,
            Some(CommandState::Committed) => match stored.result {
                Some(t) => res matches Ok(Known::Replay(s)) && s@ == t@,
                None => res matches Err(e) && e matches AppError::Invariant(c) && c@ == "terminal command reply"@,
            },
            Some(CommandState::Rejected) => match stored.error {
                Some(t) => res matches Ok(Known::Replay(s)) && s@ == t@,
                None => res matches Err(e) && e matches AppError::Invariant(c) && c@ == "terminal command reply"@,
            },
            Some(state) => res matches Ok(Known::Reply(r)) && r.http_status == 202
                && (r.body matches ReplyBody::Progress { id, state: s } && id@ == request_id && s == state),
        }
    }
}

/// Answers a request whose ID the journal has recorded under this epoch.
pub fn known(stored: &StoredCommand, digest: &str, request_id: &str) -> (res: Result<Known, AppError>)
    ensures
        known_spec(*stored, digest@, request_id@, res),
{
    if !text_eq(stored.digest.as_str(), digest) {
        return Ok(Known::Reply(Reply::error(409, "IDEMPOTENCY_KEY_REUSED", request_id)));
    }
    let state = match CommandState::parse(stored.state.as_str()) {
        Ok(s) => s,
        Err(e) => return Err(e),
    };
    match state {
        CommandState::Committed => match &stored.result {
            Some(t) => Ok(Known::Replay(t.clone())),
            None => Err(AppError::invariant_failed("terminal command reply")),
        },
        CommandState::Rejected => match &stored.error {
            Some(t) => Ok(Known::Replay(t.clone())),
            None => Err(AppError::invariant_failed("terminal command reply")),
        },
        _ => Ok(Known::Reply(Reply::progress(request_id, state))),
    }
}

/// A command of another epoch is `409 EPOCH_CHANGED`: a restore rotated the
/// epoch and old client intentions no longer apply.
pub fn check_epoch(command_epoch: &str, epoch: &str, request_id: &str) -> (res: Option<Reply>)
    ensures
        command_epoch@ == epoch@ ==> res is None,
        command_epoch@ != epoch@ ==> (res matches Some(r) && is_error_reply(r, 409, "EPOCH_CHANGED"@, request_id@)),
{
    if text_eq(command_epoch, epoch) {
        None
    } else {
        Some(Reply::error(409, "EPOCH_CHANGED", request_id))
    }
}

/// The outcome of admitting a request the journal does not know.
pub enum Admission {
    /// Admitted; the durable floor becomes `floor`.
    Admit { floor: i64 },
    Refuse(Reply),
}

/// A retried request replays what the journal recorded: a command recorded
/// as committed or rejected, with its reply stored in the column its state
/// reads, is answered by that reply when the same payload comes again.
pub proof fn lemma_retry_replays(
    rejected: bool,
    digest: Seq<char>,
    request_id: Seq<char>,
    stored: StoredCommand,
    reply: Seq<char>,
    res: Result<Known, AppError>,
)
    requires
        stored.digest@ == digest,
        stored.state@ == crate::command_state::command_state_text(if rejected { CommandState::Rejected } else { CommandState::Committed }),
        rejected ==> (stored.error matches Some(t) && t@ == reply),
        !rejected ==> (stored.result matches Some(t) && t@ == reply),
        known_spec(stored, digest, request_id, res),
    ensures
        res matches Ok(Known::Replay(s)) && s@ == reply,
{
    crate::command_state::lemma_command_state_round_trip(if rejected { CommandState::Rejected } else { CommandState::Committed });
}

/// The same request ID with another payload never replays: it is refused as
/// a reused key, whatever was recorded.
pub proof fn lemma_reused_key_refused(stored: StoredCommand, digest: Seq<char>, request_id: Seq<char>, res: Result<Known, AppError>)
    requires
        stored.digest@ != digest,
        known_spec(stored, digest, request_id, res),
    ensures
        res matches Ok(Known::Reply(r)) && r.http_status == 409,
{
}

/// The stored floor: absent means zero.
pub open spec fn floor_of(stored: Option<Seq<u8>>) -> Option<int> {
    match stored {
        None => Some(0),
        Some(b) => parse_i64_spec(b),
    }
}

pub open spec fn max(a: int, b: int) -> int {
    if a >= b { a } else { b }
}

/// The admission decision for a fresh request at `now` under `floor`:
/// malformed IDs are `422 INVALID_REQUEST_ID`; a clock more than five
/// minutes behind the floor is `503 CLOCK_ROLLBACK`; an ID older than a day
/// before the later of now and the floor, or more than five minutes ahead
/// of now, is `409 REQUEST_OUTSIDE_WINDOW`. Otherwise the request is
/// admitted and the floor moves to the later of now and itself.
pub open spec fn admission_spec(request_id: Seq<char>, floor: int, now: int, res: Admission) -> bool {
    if !canonical_uuid_spec(request_id, 7) {
        res matches Admission::Refuse(r) && is_error_reply(r, 422, "INVALID_REQUEST_ID"@, request_id)
    } else if now < floor - CLOCK_SLACK {
        res matches Admission::Refuse(r) && is_error_reply(r, 503, "CLOCK_ROLLBACK"@, request_id)
    } else {
        let t = request_millis_spec(request_id);
        let admission = max(now, floor);
        if t < admission - REQUEST_WINDOW || t > now + CLOCK_SLACK {
            res matches Admission::Refuse(r) && is_error_reply(r, 409, "REQUEST_OUTSIDE_WINDOW"@, request_id)
        } else {
            res matches Admission::Admit { floor: f } && f == admission
        }
    }
}

/// Admission never moves the clock floor back, never sets it behind the
/// clock, and admits only IDs created within a day before it and at most
/// five minutes ahead of the clock.
pub proof fn lemma_admission_floor(request_id: Seq<char>, floor: int, now: int, res: Admission)
    requires
        admission_spec(request_id, floor, now, res),
        res is Admit,
    ensures
        res->floor >= floor,
        res->floor >= now,
        res->floor - REQUEST_WINDOW <= request_millis_spec(request_id) <= now + CLOCK_SLACK,
        canonical_uuid_spec(request_id, 7),
{
}

/// The bytes of the durable floor's stored text, if any.
pub open spec fn floor_bytes(stored_floor: Option<&str>) -> Option<Seq<u8>> {
    match stored_floor {
        Some(s) => Some(s.spec_bytes()),
        None => None,
    }
}

/// The outcome of admitting a fresh request: a malformed ID is refused
/// before the floor is read; a stored floor that is not an `i64` is a
/// stored-data error; otherwise `admission_spec` decides.
pub open spec fn admit_fresh_spec(request_id: Seq<char>, stored_floor: Option<Seq<u8>>, now: int, res: Result<Admission, AppError>) -> bool {
    if !canonical_uuid_spec(request_id, 7) {
        res matches Ok(a) && admission_spec(request_id, 0, now, a)
    } else {
        match floor_of(stored_floor) {
            None => res matches Err(e) && e matches AppError::StoredData { context: c } && c@ == "journal clock floor"@,
            Some(floor) => res matches Ok(a) && admission_spec(request_id, floor, now, a),
        }
    }
}

/// Admits or refuses a request the journal does not know. `stored_floor` is
/// the durable floor's stored text, if any; one that is not an `i64` is a
/// stored-data error.
pub fn admit_fresh(request_id: &str, stored_floor: Option<&str>, now: i64) -> (res: Result<Admission, AppError>)
    ensures
        admit_fresh_spec(request_id@, floor_bytes(stored_floor), now as int, res),
{
    if !valid_request_id(request_id) {
        return Ok(Admission::Refuse(Reply::error(422, "INVALID_REQUEST_ID", request_id)));
    }
    let request_time = request_millis(request_id);
    let floor: i64 = match stored_floor {
        None => 0,
        Some(text) => match parse_i64(text.as_bytes()) {
            Some(v) => v,
            None => return Err(AppError::stored("journal clock floor")),
        },
    };
    if (now as i128) < (floor as i128) - (CLOCK_SLACK as i128) {
        return Ok(Admission::Refuse(Reply::error(503, "CLOCK_ROLLBACK", request_id)));
    }
    let admission = if now >= floor { now } else { floor };
    if (request_time as i128) < (admission as i128) - (REQUEST_WINDOW as i128)
        || (request_time as i128) > (now as i128) + (CLOCK_SLACK as i128) {
        return Ok(Admission::Refuse(Reply::error(409, "REQUEST_OUTSIDE_WINDOW", request_id)));
    }
    Ok(Admission::Admit { floor: admission })
}

/// What the journal makes of an incoming command.
pub enum Intake {
    /// The command belongs to another epoch.
    EpochChanged(Reply),
    /// The journal recorded this request ID under the current epoch.
    Known(Known),
    /// The request is new: admitted or refused by the clock rules.
    Fresh(Admission),
}

/// The known-request part of an intake outcome.
pub open spec fn known_part(res: Result<Intake, AppError>) -> Option<Result<Known, AppError>> {
    match res {
        Ok(Intake::Known(k)) => Some(Ok(k)),
        Err(e) => Some(Err(e)),
        _ => None,
    }
}

/// The fresh-request part of an intake outcome.
pub open spec fn fresh_part(res: Result<Intake, AppError>) -> Option<Result<Admission, AppError>> {
    match res {
        Ok(Intake::Fresh(a)) => Some(Ok(a)),
        Err(e) => Some(Err(e)),
        _ => None,
    }
}

/// The outcome of taking in a command: a command of another epoch is `409
/// EPOCH_CHANGED`; a request ID recorded under this epoch is answered from
/// its record; only an unknown request meets the admission rules.
pub open spec fn intake_spec(
    journal_epoch: Seq<char>,
    command_epoch: Seq<char>,
    request_id: Seq<char>,
    digest: Seq<char>,
    stored: Option<StoredCommand>,
    stored_floor: Option<Seq<u8>>,
    now: int,
    res: Result<Intake, AppError>,
) -> bool {
    if command_epoch != journal_epoch {
        res matches Ok(Intake::EpochChanged(r)) && is_error_reply(r, 409, "EPOCH_CHANGED"@, request_id)
    } else {
        match stored {
            Some(row) => known_part(res) matches Some(k) && known_spec(row, digest, request_id, k),
            None => fresh_part(res) matches Some(a) && admit_fresh_spec(request_id, stored_floor, now, a),
        }
    }
}

/// A retried command is answered from its record before anything else is
/// read: under the current epoch, a request whose terminal reply was
/// recorded replays that reply whatever the clock and the admission floor,
/// and is never admitted again.
pub proof fn lemma_retry_answered_from_record(
    epoch: Seq<char>,
    request_id: Seq<char>,
    digest: Seq<char>,
    reply_json: Seq<char>,
    rejected: bool,
    row: StoredCommand,
    stored_floor: Option<Seq<u8>>,
    now: int,
    res: Result<Intake, AppError>,
)
    requires
        recorded_spec(digest, reply_json, rejected, false, row),
        intake_spec(epoch, epoch, request_id, digest, Some(row), stored_floor, now, res),
    ensures
        res matches Ok(Intake::Known(Known::Replay(s))) && s@ == reply_json,
{
    crate::command_state::lemma_command_state_round_trip(record_state_spec(rejected, false));
}

/// Takes in a command under the journal's epoch at `now`, in this order: a
/// command of another epoch is `409 EPOCH_CHANGED` whatever was recorded;
/// a request ID recorded under this epoch (`stored`) is answered from its
/// record and never re-admitted; only a request the journal does not know
/// meets the admission rules, under the stored floor.
pub fn intake(
    journal_epoch: &str,
    command_epoch: &str,
    request_id: &str,
    digest: &str,
    stored: Option<&StoredCommand>,
    stored_floor: Option<&str>,
    now: i64,
) -> (res: Result<Intake, AppError>)
    ensures
        intake_spec(journal_epoch@, command_epoch@, request_id@, digest@, match stored {
            Some(s) => Some(*s),
            None => None,
        }, floor_bytes(stored_floor), now as int, res),
{
    if let Some(refusal) = check_epoch(command_epoch, journal_epoch, request_id) {
        return Ok(Intake::EpochChanged(refusal));
    }
    match stored {
        Some(s) => match known(s, digest, request_id) {
            Ok(k) => Ok(Intake::Known(k)),
            Err(e) => Err(e),
        },
        None => match admit_fresh(request_id, stored_floor, now) {
            Ok(a) => Ok(Intake::Fresh(a)),
            Err(e) => Err(e),
        },
    }
}

/// The state a command is recorded in: rejected, prepared while a write
/// intent is outstanding, or committed.
pub fn record_state(rejected: bool, has_intent: bool) -> (res: CommandState)
    ensures
        res == record_state_spec(rejected, has_intent),
{
    if rejected {
        CommandState::Rejected
    } else if has_intent {
        CommandState::Prepared
    } else {
        CommandState::Committed
    }
}

/// The state a command is recorded in, as a function of the outcome.
pub open spec fn record_state_spec(rejected: bool, has_intent: bool) -> CommandState {
    if rejected {
        CommandState::Rejected
    } else if has_intent {
        CommandState::Prepared
    } else {
        CommandState::Committed
    }
}

/// The row the journal records for a command: its digest, the state of its
/// outcome, and its reply's JSON in `error` when rejected, in `result`
/// otherwise.
pub open spec fn recorded_spec(digest: Seq<char>, reply_json: Seq<char>, rejected: bool, has_intent: bool, row: StoredCommand) -> bool {
    &&& row.digest@ == digest
    &&& row.state@ == crate::command_state::command_state_text(record_state_spec(rejected, has_intent))
    &&& if rejected {
        row.result is None && (row.error matches Some(t) && t@ == reply_json)
    } else {
        (row.result matches Some(t) && t@ == reply_json) && row.error is None
    }
}

pub fn recorded_command(digest: &str, reply_json: &str, rejected: bool, has_intent: bool) -> (res: StoredCommand)
    ensures
        recorded_spec(digest@, reply_json@, rejected, has_intent, res),
{
    let state = record_state(rejected, has_intent);
    let json = reply_json.to_owned();
    StoredCommand {
        digest: digest.to_owned(),
        state: state.as_str().to_owned(),
        result: if rejected { None } else { Some(json.clone()) },
        error: if rejected { Some(json) } else { None },
    }
}

/// What is recorded is what a retry gets: once a command's terminal reply
/// is recorded, the same request with the same payload replays exactly that
/// reply, and the same request ID with another payload is refused as a
/// reused key.
pub proof fn lemma_recorded_reply_replays(
    digest: Seq<char>,
    other_digest: Seq<char>,
    request_id: Seq<char>,
    reply_json: Seq<char>,
    rejected: bool,
    row: StoredCommand,
    res: Result<Known, AppError>,
    other: Result<Known, AppError>,
)
    requires
        recorded_spec(digest, reply_json, rejected, false, row),
        known_spec(row, digest, request_id, res),
        other_digest != digest,
        known_spec(row, other_digest, request_id, other),
    ensures
        res matches Ok(Known::Replay(s)) && s@ == reply_json,
        other matches Ok(Known::Reply(r)) && is_error_reply(r, 409, "IDEMPOTENCY_KEY_REUSED"@, request_id),
{
    crate::command_state::lemma_command_state_round_trip(record_state_spec(rejected, false));
}

/// What recording a command does.
pub enum RecordStep {
    /// Nothing was recorded for this request: insert this row.
    Insert(StoredCommand),
    /// A row exists: keep it and answer from it.
    Answer(Result<Known, AppError>),
}

pub open spec fn record_step_spec(
    existing: Option<StoredCommand>,
    digest: Seq<char>,
    reply_json: Seq<char>,
    rejected: bool,
    has_intent: bool,
    request_id: Seq<char>,
    res: RecordStep,
) -> bool {
    match existing {
        Some(row) => res matches RecordStep::Answer(k) && known_spec(row, digest, request_id, k),
        None => res matches RecordStep::Insert(row) && recorded_spec(digest, reply_json, rejected, has_intent, row),
    }
}

/// Records a command's outcome against the row the journal holds for its
/// epoch and request ID, if any: an existing row is kept and answers, as a
/// retry would be answered; otherwise the outcome's row is inserted.
pub fn record_step(
    existing: Option<&StoredCommand>,
    digest: &str,
    reply_json: &str,
    rejected: bool,
    has_intent: bool,
    request_id: &str,
) -> (res: RecordStep)
    ensures
        record_step_spec(match existing {
            Some(r) => Some(*r),
            None => None,
        }, digest@, reply_json@, rejected, has_intent, request_id@, res),
{
    match existing {
        Some(row) => RecordStep::Answer(known(row, digest, request_id)),
        None => RecordStep::Insert(recorded_command(digest, reply_json, rejected, has_intent)),
    }
}

/// The journal's commands, by epoch and request ID, after a record step.
pub open spec fn after_record(
    table: Map<(Seq<char>, Seq<char>), StoredCommand>,
    key: (Seq<char>, Seq<char>),
    step: RecordStep,
) -> Map<(Seq<char>, Seq<char>), StoredCommand> {
    match step {
        RecordStep::Insert(row) => table.insert(key, row),
        RecordStep::Answer(_) => table,
    }
}

/// Recording is first-wins: once a command is recorded, recording it again
/// (by a retry or a racing attempt, whatever its outcome) changes no row and
/// answers from the first record: the first reply when the payload is the
/// same and the first outcome was terminal, `409 IDEMPOTENCY_KEY_REUSED`
/// when the payload differs.
pub proof fn lemma_second_record_keeps_first(
    table: Map<(Seq<char>, Seq<char>), StoredCommand>,
    key: (Seq<char>, Seq<char>),
    request_id: Seq<char>,
    digest: Seq<char>,
    reply_json: Seq<char>,
    rejected: bool,
    has_intent: bool,
    first: RecordStep,
    digest2: Seq<char>,
    reply_json2: Seq<char>,
    rejected2: bool,
    has_intent2: bool,
    second: RecordStep,
)
    requires
        !table.dom().contains(key),
        record_step_spec(None, digest, reply_json, rejected, has_intent, request_id, first),
        record_step_spec(
            Some(after_record(table, key, first)[key]),
            digest2,
            reply_json2,
            rejected2,
            has_intent2,
            request_id,
            second,
        ),
    ensures
        first is Insert,
        after_record(after_record(table, key, first), key, second) == after_record(table, key, first),
        after_record(table, key, first).dom() == table.dom().insert(key),
        digest2 == digest && !has_intent ==> (second matches RecordStep::Answer(Ok(Known::Replay(s))) && s@ == reply_json),
        digest2 != digest ==> (second matches RecordStep::Answer(Ok(Known::Reply(r)))
            && is_error_reply(r, 409, "IDEMPOTENCY_KEY_REUSED"@, request_id)),
{
    crate::command_state::lemma_command_state_round_trip(record_state_spec(rejected, has_intent));
    assert(after_record(table, key, first).dom() =~= table.dom().insert(key));
}

/// The reply a refusal met while serving a command is answered and recorded
/// with: the refusal's own status and body, with the command's request ID
/// set in its error. Any other error is not a refusal and is returned as
/// it is.
pub open spec fn rejected_with(error: AppError, request_id: Seq<char>, res: Result<Reply, AppError>) -> bool {
    match error {
        AppError::Rejected(r) => res matches Ok(out) && out.http_status == r.http_status && match r.body {
            ReplyBody::Error { code, request_id: _ } => out.body matches ReplyBody::Error { code: c, request_id: Some(id) }
                && c@ == code@ && id@ == request_id,
            other => out.body == other,
        },
        other => res == Err::<Reply, AppError>(other),
    }
}

pub fn reject_error(error: AppError, request_id: &str) -> (res: Result<Reply, AppError>)
    ensures
        rejected_with(error, request_id@, res),
{
    match error {
        AppError::Rejected(r) => {
            let status = r.http_status;
            match r.body {
                ReplyBody::Error { code, request_id: _ } => Ok(Reply {
                    http_status: status,
                    body: ReplyBody::Error { code, request_id: Some(request_id.to_owned()) },
                }),
                other => Ok(Reply { http_status: status, body: other }),
            }
        },
        other => Err(other),
    }
}

/// How many of the oldest history rows a retention pass removes, and the
/// history size that remains. Rows come oldest first as (recorded time,
/// size); removal stops at the first row that is younger than `cutoff` while
/// the remaining history fits the budget.
pub open spec fn history_cut(rows: Seq<(Seq<char>, int)>, total: int, cutoff: Seq<char>) -> (nat, int)
    decreases rows.len(),
{
    if rows.len() == 0 {
        (0, total)
    } else if !text_lt(rows[0].0, cutoff) && total <= HISTORY_BUDGET {
        (0, total)
    } else {
        let rest = history_cut(rows.drop_first(), total - rows[0].1, cutoff);
        ((rest.0 + 1) as nat, rest.1)
    }
}

pub open spec fn history_view(rows: Seq<(String, i64)>) -> Seq<(Seq<char>, int)> {
    rows.map_values(|r: (String, i64)| (r.0@, r.1 as int))
}

/// The total size of history rows.
pub open spec fn size_sum(rows: Seq<(Seq<char>, int)>) -> int
    decreases rows.len(),
{
    if rows.len() == 0 {
        0
    } else {
        size_sum(rows.drop_last()) + rows.last().1
    }
}

proof fn lemma_size_sum_prefix(rows: Seq<(Seq<char>, int)>, i: int)
    requires
        0 <= i <= rows.len(),
        forall|j: int| 0 <= j < rows.len() ==> 0 <= (#[trigger] rows[j]).1,
    ensures
        0 <= size_sum(rows.take(i)) <= size_sum(rows),
    decreases rows.len() - i,
{
    if i < rows.len() {
        lemma_size_sum_prefix(rows, i + 1);
        assert(rows.take(i + 1).drop_last() =~= rows.take(i));
    } else {
        assert(rows.take(i) =~= rows);
    }
    if i > 0 {
        lemma_size_sum_nonnegative(rows.take(i));
    }
}

proof fn lemma_size_sum_nonnegative(rows: Seq<(Seq<char>, int)>)
    requires
        forall|j: int| 0 <= j < rows.len() ==> 0 <= (#[trigger] rows[j]).1,
    ensures
        0 <= size_sum(rows),
    decreases rows.len(),
{
    if rows.len() > 0 {
        lemma_size_sum_nonnegative(rows.drop_last());
    }
}

/// Decides one retention pass over the oldest history rows at `now`, given
/// the history's total size, which includes these rows. History younger
/// than thirty days is kept while the total stays within 1 GiB.
pub fn retain_history(rows: &Vec<(String, i64)>, total: i64, now: i64) -> (res: (usize, i64))
    requires
        MIN_INSTANT + HISTORY_AGE <= now <= MAX_INSTANT,
        forall|i: int| 0 <= i < rows@.len() ==> 0 <= (#[trigger] rows@[i]).1,
        size_sum(history_view(rows@)) <= total,
    ensures
        res.0 as nat == history_cut(history_view(rows@), total as int, rfc3339_millis(now - HISTORY_AGE)).0,
        res.1 as int == history_cut(history_view(rows@), total as int, rfc3339_millis(now - HISTORY_AGE)).1,
{
    let cutoff = instant(now - HISTORY_AGE);
    let ghost v = history_view(rows@);
    let mut remaining = total;
    let mut i: usize = 0;
    assert(v.skip(0) =~= v);
    assert(v.take(0) =~= Seq::<(Seq<char>, int)>::empty());
    assert forall|j: int| 0 <= j < v.len() implies 0 <= (#[trigger] v[j]).1 by {
        assert(v[j] == (rows@[j].0@, rows@[j].1 as int));
    }
    while i < rows.len()
        invariant
            i <= rows.len(),
            v == history_view(rows@),
            v.len() == rows@.len(),
            cutoff@ == rfc3339_millis(now - HISTORY_AGE),
            forall|j: int| 0 <= j < v.len() ==> 0 <= (#[trigger] v[j]).1,
            size_sum(v) <= total,
            remaining == total - size_sum(v.take(i as int)),
            history_cut(v, total as int, cutoff@) == ((history_cut(v.skip(i as int), remaining as int, cutoff@).0 + i) as nat,
                history_cut(v.skip(i as int), remaining as int, cutoff@).1),
        decreases rows.len() - i,
    {
        let young = !text_less(rows[i].0.as_str(), cutoff.as_str());
        let ghost rest = v.skip(i as int);
        assert(rest[0] == v[i as int]);
        assert(v[i as int] == (rows@[i as int].0@, rows@[i as int].1 as int));
        if young && remaining <= HISTORY_BUDGET {
            assert(history_cut(rest, remaining as int, cutoff@) == (0nat, remaining as int));
            return (i, remaining);
        }
        assert(rest.drop_first() =~= v.skip(i + 1));
        assert(v.take(i + 1).drop_last() =~= v.take(i as int));
        proof {
            lemma_size_sum_prefix(v, i + 1);
        }
        remaining = remaining - rows[i].1;
        i = i + 1;
    }
    assert(v.skip(i as int) =~= Seq::<(Seq<char>, int)>::empty());
    (i, remaining)
}

/// The state schema this journal writes and reads.
pub const STATE_SCHEMA: u32 = 2;

/// What opening the state database does with the schema version it finds.
pub enum SchemaStep {
    /// An empty database: the starting schema is created.
    Create,
    /// A first-release database: its write intents are rebuilt to allow
    /// deletions and intents without an after-image, keeping every row.
    Migrate,
    /// The current schema: nothing to do.
    Current,
}

/// The schema step for `version`; a state database written by a newer
/// release is refused: `503 STATE_SCHEMA_TOO_NEW`.
pub fn schema_step(version: u32) -> (res: Result<SchemaStep, AppError>)
    ensures
        version == 0 ==> res matches Ok(SchemaStep::Create),
        version == 1 ==> res matches Ok(SchemaStep::Migrate),
        version == STATE_SCHEMA ==> res matches Ok(SchemaStep::Current),
        version > STATE_SCHEMA ==> (res matches Err(e) && crate::reply::is_rejection(e, 503, "STATE_SCHEMA_TOO_NEW"@)),
{
    if version == 0 {
        Ok(SchemaStep::Create)
    } else if version == 1 {
        Ok(SchemaStep::Migrate)
    } else if version == STATE_SCHEMA {
        Ok(SchemaStep::Current)
    } else {
        Err(AppError::reject(503, "STATE_SCHEMA_TOO_NEW"))
    }
}

/// A stored command epoch must be a UUID; anything else is a broken state
/// database.
pub fn check_stored_epoch(epoch: &str) -> (res: Result<(), AppError>)
    ensures
        uuid_parse_spec(epoch.spec_bytes()) is Some ==> res is Ok,
        uuid_parse_spec(epoch.spec_bytes()) is None ==> (res matches Err(e) && e matches AppError::Invariant(c)
            && c@ == "stored command epoch"@),
{
    if uuid_parses(epoch) {
        Ok(())
    } else {
        Err(AppError::invariant_failed("stored command epoch"))
    }
}

/// The position of the first receipt that repeats an earlier one, by
/// project and update.
pub fn duplicate_receipt(items: &Vec<(String, String)>) -> (res: Option<usize>)
    ensures
        match res {
            Some(i) => i < items.len() && (exists|j: int| 0 <= j < i && items@[j].0@ == items@[i as int].0@ && items@[j].1@ == items@[i as int].1@)
                && forall|a: int, b: int| 0 <= a < b < i ==> !(items@[a].0@ == items@[b].0@ && items@[a].1@ == items@[b].1@),
            None => forall|a: int, b: int| 0 <= a < b < items@.len() ==> !(items@[a].0@ == items@[b].0@ && items@[a].1@ == items@[b].1@),
        },
{
    let mut i: usize = 0;
    while i < items.len()
        invariant
            i <= items.len(),
            forall|a: int, b: int| 0 <= a < b < i ==> !(items@[a].0@ == items@[b].0@ && items@[a].1@ == items@[b].1@),
        decreases items.len() - i,
    {
        let mut j: usize = 0;
        while j < i
            invariant
                i < items.len(),
                j <= i,
                forall|a: int, b: int| 0 <= a < b < i ==> !(items@[a].0@ == items@[b].0@ && items@[a].1@ == items@[b].1@),
                forall|a: int| 0 <= a < j ==> !(items@[a].0@ == items@[i as int].0@ && items@[a].1@ == items@[i as int].1@),
            decreases i - j,
        {
            if text_eq(items[j].0.as_str(), items[i].0.as_str()) && text_eq(items[j].1.as_str(), items[i].1.as_str()) {
                return Some(i);
            }
            j = j + 1;
        }
        i = i + 1;
    }
    None
}

/// The status of a receipts command: `noop` when no receipt changed,
/// `committed` otherwise. Either way the command is recorded committed.
pub fn receipts_status(changed: usize) -> (res: &'static str)
    ensures
        res@ == (if changed == 0 { "noop"@ } else { "committed"@ }),
{
    crate::writer::result_status(changed == 0)
}

/// A status query names a valid request ID (`400 INVALID_REQUEST_ID`) and a
/// canonical version 4 epoch (`400 INVALID_EPOCH`) that is the current one
/// (`409 EPOCH_CHANGED`).
pub fn check_status_query(request_id: &str, original_epoch: &str, epoch: &str) -> (res: Result<(), AppError>)
    ensures
        !canonical_uuid_spec(request_id@, 7) ==> (res matches Err(e) && crate::reply::is_rejection(e, 400, "INVALID_REQUEST_ID"@)),
        canonical_uuid_spec(request_id@, 7) && !canonical_uuid_spec(original_epoch@, 4) ==> (res matches Err(e)
            && crate::reply::is_rejection(e, 400, "INVALID_EPOCH"@)),
        canonical_uuid_spec(request_id@, 7) && canonical_uuid_spec(original_epoch@, 4) && original_epoch@ != epoch@ ==> (res matches Err(e)
            && crate::reply::is_rejection(e, 409, "EPOCH_CHANGED"@)),
        canonical_uuid_spec(request_id@, 7) && canonical_uuid_spec(original_epoch@, 4) && original_epoch@ == epoch@ ==> res is Ok,
{
    if !valid_request_id(request_id) {
        return Err(AppError::reject(400, "INVALID_REQUEST_ID"));
    }
    if !canonical_uuid(original_epoch, 4) {
        return Err(AppError::reject(400, "INVALID_EPOCH"));
    }
    if !text_eq(original_epoch, epoch) {
        return Err(AppError::reject(409, "EPOCH_CHANGED"));
    }
    Ok(())
}

/// The stored reply a command's status shows: the error of a rejected
/// command, the result of any other. A pending command's planned result
/// never changes its state.
pub fn status_reply(state: &str, result: Option<String>, error: Option<String>) -> (res: Result<(CommandState, Option<String>), AppError>)
    ensures
        match parse_command_state(state@) {
            None => res matches Err(e) && e matches AppError::Invariant(c) && c@ == "stored command state"@,
            Some(s) => res matches Ok(r) && r.0 == s && opt_view(r.1) == (if s == CommandState::Rejected {
                opt_view(error)
            } else {
                opt_view(result)
            }),
        },
{
    let s = match CommandState::parse(state) {
        Ok(s) => s,
        Err(e) => return Err(e),
    };
    if s == CommandState::Rejected {
        Ok((s, error))
    } else {
        Ok((s, result))
    }
}

/// Whether a command in this state is unresolved: prepared, blocked, or
/// waiting for review.
pub fn unresolved(state: CommandState) -> (res: bool)
    ensures
        res == (state == CommandState::Prepared || state == CommandState::Blocked || state == CommandState::NeedsReview),
{
    match state {
        CommandState::Prepared => true,
        CommandState::Blocked => true,
        CommandState::NeedsReview => true,
        _ => false,
    }
}

/// A restored copy of the data starts a new command epoch, so earlier client
/// intentions no longer apply. It may do so only when no command is
/// unresolved: `409 RECOVERY_REQUIRED`. The new epoch is a fresh version 4
/// UUID, which needs the system's randomness.
pub fn rotated_epoch(pending: bool) -> (res: Result<String, AppError>)
    ensures
        pending ==> (res matches Err(e) && crate::reply::is_rejection(e, 409, "RECOVERY_REQUIRED"@)),
        !pending ==> match res {
            Ok(epoch) => canonical_uuid_spec(epoch@, 4),
            Err(e) => crate::mutation::no_randomness(e),
        },
{
    if pending {
        return Err(AppError::reject(409, "RECOVERY_REQUIRED"));
    }
    fresh_epoch()
}

/// The epoch of a journal created from nothing: a fresh version 4 UUID,
/// which needs the system's randomness.
pub fn fresh_epoch() -> (res: Result<String, AppError>)
    ensures
        res matches Ok(epoch) ==> canonical_uuid_spec(epoch@, 4),
        res matches Err(e) ==> crate::mutation::no_randomness(e),
{
    crate::mutation::fresh_id()
}

/// The pairings a restore denies: those still pending, approved or claimed.
pub fn denied_by_restore(state: &str) -> (res: bool)
    ensures
        res == (state@ == "pending"@ || state@ == "approved"@ || state@ == "claimed"@),
{
    text_eq(state, "pending") || text_eq(state, "approved") || text_eq(state, "claimed")
}

} // verus!
