//! Operational failure events and the health summary. An event names a
//! stage, a category and identifiers that are known to be well formed; it
//! never carries an error's text, which may hold paths or secrets.
use crate::ids::{canonical_uuid, canonical_uuid_spec, valid_request_id};
use crate::reply::{AppError, StoreFailure};
use crate::text::{parse_i64, parse_i64_spec};
use vstd::prelude::*;
use vstd::string::StringSliceAdditionalSpecFns;

verus! {

/// What an event says of a failure.
pub struct Failure {
    pub category: String,
    /// The I/O error kind's name, for I/O failures.
    pub io_kind: Option<String>,
    /// SQLite's extended result code, for database failures that carry one.
    pub sqlite_code: Option<i32>,
}

/// A failure event as written to standard error, one JSON object per line.
pub struct FailureEvent {
    pub stage: String,
    pub failure: Failure,
    pub project_id: Option<String>,
    pub request_id: Option<String>,
}

/// The category of each failure.
pub open spec fn category_spec(error: AppError) -> Seq<char> {
    match error {
        AppError::Rejected(_) => "rejected"@,
        AppError::Store(StoreFailure::Io { .. }) => "io"@,
        AppError::Store(StoreFailure::Invalid { .. }) => "invalid_store"@,
        AppError::Store(StoreFailure::NormalizationRequired) => "normalization_required"@,
        AppError::Store(StoreFailure::Conflict) => "conflict"@,
        AppError::Store(StoreFailure::Domain) => "source_validation"@,
        AppError::SourceValidation { .. } => "source_validation"@,
        AppError::Database { .. } => "database"@,
        AppError::LockPoisoned(_) => "lock_poisoned"@,
        AppError::StoredData { .. } => "stored_data"@,
        AppError::Unavailable(_) => "unavailable"@,
        AppError::Invariant(_) => "invariant"@,
    }
}

/// Classifies a failure: its category, with the I/O kind of I/O failures
/// and the SQLite code of database failures that have one, and nothing else.
pub fn classification(error: &AppError) -> (res: Failure)
    ensures
        res.category@ == category_spec(*error),
        match *error {
            AppError::Store(StoreFailure::Io { kind }) => res.io_kind matches Some(k) && k@ == kind@,
            _ => res.io_kind is None,
        },
        match *error {
            AppError::Database { sqlite_code } => res.sqlite_code == sqlite_code,
            _ => res.sqlite_code is None,
        },
{
    let plain = |c: &str| -> (f: Failure)
        ensures
            f.category@ == c@,
            f.io_kind is None,
            f.sqlite_code is None,
    {
        Failure { category: c.to_owned(), io_kind: None, sqlite_code: None }
    };
    match error {
        AppError::Rejected(_) => plain("rejected"),
        AppError::Store(StoreFailure::Io { kind }) => Failure {
            category: "io".to_owned(),
            io_kind: Some(kind.clone()),
            sqlite_code: None,
        },
        AppError::Store(StoreFailure::Invalid { .. }) => plain("invalid_store"),
        AppError::Store(StoreFailure::NormalizationRequired) => plain("normalization_required"),
        AppError::Store(StoreFailure::Conflict) => plain("conflict"),
        AppError::Store(StoreFailure::Domain) => plain("source_validation"),
        AppError::SourceValidation { .. } => plain("source_validation"),
        AppError::Database { sqlite_code } => Failure {
            category: "database".to_owned(),
            io_kind: None,
            sqlite_code: *sqlite_code,
        },
        AppError::LockPoisoned(_) => plain("lock_poisoned"),
        AppError::StoredData { .. } => plain("stored_data"),
        AppError::Unavailable(_) => plain("unavailable"),
        AppError::Invariant(_) => plain("invariant"),
    }
}

/// A stage name that may be logged: 1 to 64 bytes of lowercase ASCII
/// letters and underscores.
pub open spec fn safe_stage(stage: Seq<u8>) -> bool {
    0 < stage.len() <= 64 && forall|i: int| 0 <= i < stage.len() ==> ((97 <= #[trigger] stage[i] <= 122) || stage[i] == 95)
}

fn stage_ok(stage: &str) -> (res: bool)
    ensures
        res == safe_stage(stage.spec_bytes()),
{
    let b = stage.as_bytes();
    if b.len() == 0 || b.len() > 64 {
        return false;
    }
    let mut i: usize = 0;
    while i < b.len()
        invariant
            i <= b.len(),
            b@ == stage.spec_bytes(),
            forall|j: int| 0 <= j < i ==> ((97 <= #[trigger] b@[j] <= 122) || b@[j] == 95),
        decreases b.len() - i,
    {
        let c = b[i];
        if !((97 <= c && c <= 122) || c == 95) {
            return false;
        }
        i = i + 1;
    }
    true
}

/// Builds a failure event: an unsafe stage is logged as `unspecified`, a
/// project ID only when it is a canonical version 4 UUID, and a request ID
/// only when it is a valid request ID.
pub fn event(stage: &str, failure: Failure, project_id: Option<&str>, request_id: Option<&str>) -> (res: FailureEvent)
    ensures
        res.stage@ == (if safe_stage(stage.spec_bytes()) { stage@ } else { "unspecified"@ }),
        res.failure == failure,
        match project_id {
            Some(p) => if canonical_uuid_spec(p@, 4) {
                res.project_id matches Some(q) && q@ == p@
            } else {
                res.project_id is None
            },
            None => res.project_id is None,
        },
        match request_id {
            Some(r) => if canonical_uuid_spec(r@, 7) {
                res.request_id matches Some(q) && q@ == r@
            } else {
                res.request_id is None
            },
            None => res.request_id is None,
        },
{
    let stage = if stage_ok(stage) { stage.to_owned() } else { "unspecified".to_owned() };
    let project_id = match project_id {
        Some(p) => if canonical_uuid(p, 4) { Some(p.to_owned()) } else { None },
        None => None,
    };
    let request_id = match request_id {
        Some(r) => if valid_request_id(r) { Some(r.to_owned()) } else { None },
        None => None,
    };
    FailureEvent { stage, failure, project_id, request_id }
}

/// The warnings of the health summary, in the order they are listed.
pub struct Health {
    /// `WORKSPACE_MISSING` or `WORKSPACE_INVALID`, when the workspace file
    /// cannot be read.
    pub workspace: Option<&'static str>,
    pub recovery_pending: bool,
    pub clock_rollback: bool,
    pub source_diagnostics: bool,
}

/// The clock runs more than five minutes behind the stored admission
/// floor; a floor that is absent or not a number says nothing.
pub open spec fn rolled_back(floor: Option<Seq<u8>>, now: int) -> bool {
    match floor {
        Some(b) => match parse_i64_spec(b) {
            Some(f) => now < f - 300_000,
            None => false,
        },
        None => false,
    }
}

/// Summarizes the engine's health. The state is ready without warnings and
/// degraded otherwise; the index is degraded when sources are invalid or
/// the workspace cannot be read.
pub fn health(
    workspace_readable: bool,
    workspace_missing: bool,
    pending_commands: i64,
    floor: Option<&str>,
    now: i64,
    invalid_documents: i64,
) -> (res: (Health, &'static str, &'static str))
    ensures
        res.0.workspace == (if workspace_readable { None } else if workspace_missing { Some("WORKSPACE_MISSING") } else { Some(
            "WORKSPACE_INVALID",
        ) }),
        res.0.recovery_pending == (pending_commands > 0),
        res.0.clock_rollback == rolled_back(match floor {
            Some(f) => Some(f.spec_bytes()),
            None => None,
        }, now as int),
        res.0.source_diagnostics == (invalid_documents > 0),
        res.1@ == (if !workspace_readable || pending_commands > 0 || res.0.clock_rollback || invalid_documents > 0 {
            "degraded"@
        } else {
            "ready"@
        }),
        res.2@ == (if invalid_documents > 0 || !workspace_readable { "degraded"@ } else { "ready"@ }),
{
    let workspace = if workspace_readable {
        None
    } else if workspace_missing {
        Some("WORKSPACE_MISSING")
    } else {
        Some("WORKSPACE_INVALID")
    };
    let clock_rollback = match floor {
        Some(text) => match parse_i64(text.as_bytes()) {
            Some(f) => (now as i128) < (f as i128) - 300_000,
            None => false,
        },
        None => false,
    };
    let state = if !workspace_readable || pending_commands > 0 || clock_rollback || invalid_documents > 0 {
        "degraded"
    } else {
        "ready"
    };
    let index = if invalid_documents > 0 || !workspace_readable { "degraded" } else { "ready" };
    (Health { workspace, recovery_pending: pending_commands > 0, clock_rollback, source_diagnostics: invalid_documents > 0 }, state, index)
}

} // verus!
