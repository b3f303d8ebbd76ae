//! Deleting a card or a report source: what the file must be before it is
//! removed, what still holds it, and what recovery may finish.
use crate::mutation::DocKind;
use crate::journal::{reject_error, rejected_with};
use crate::reply::{is_rejection, AppError, Reply};
use crate::writer::is_error_reply;
use crate::text::text_eq;
use vstd::prelude::*;

verus! {

/// Checks the source about to be deleted: it must exist (`404
/// RESOURCE_NOT_FOUND`), be the version the client saw (`412
/// VERSION_CONFLICT`) and parse as its kind (`409 DOCUMENT_INVALID`). The
/// version is that of the file's bytes, when there is a file.
pub fn preflight(version: Option<&str>, expected: Option<&str>, parses: bool) -> (res: Result<(), AppError>)
    ensures
        match version {
            None => res matches Err(e) && is_rejection(e, 404, "RESOURCE_NOT_FOUND"@),
            Some(v) => if !(expected matches Some(x) && x@ == v@) {
                res matches Err(e) && is_rejection(e, 412, "VERSION_CONFLICT"@)
            } else if !parses {
                res matches Err(e) && is_rejection(e, 409, "DOCUMENT_INVALID"@)
            } else {
                res is Ok
            },
        },
{
    let v = match version {
        None => return Err(AppError::reject(404, "RESOURCE_NOT_FOUND")),
        Some(v) => v,
    };
    let matches = match expected {
        Some(x) => text_eq(x, v),
        None => false,
    };
    if !matches {
        return Err(AppError::reject(412, "VERSION_CONFLICT"));
    }
    if !parses {
        return Err(AppError::reject(409, "DOCUMENT_INVALID"));
    }
    Ok(())
}

/// A report by the links that can hold another report: the report it
/// supersedes and the reports it resolves.
pub struct ReportLinks {
    pub id: String,
    pub supersedes: Option<String>,
    pub resolves: Vec<String>,
}

/// Whether a report links to the report `target`.
pub open spec fn links_to(r: ReportLinks, target: Seq<char>) -> bool {
    (r.supersedes matches Some(s) && s@ == target) || exists|i: int| 0 <= i < r.resolves@.len() && (#[trigger] r.resolves@[i])@ == target
}

fn links(r: &ReportLinks, target: &str) -> (res: bool)
    ensures
        res == links_to(*r, target@),
{
    if let Some(s) = &r.supersedes {
        if text_eq(s.as_str(), target) {
            return true;
        }
    }
    let mut i: usize = 0;
    while i < r.resolves.len()
        invariant
            i <= r.resolves@.len(),
            !(r.supersedes matches Some(s) && s@ == target@),
            forall|j: int| 0 <= j < i ==> (#[trigger] r.resolves@[j])@ != target@,
        decreases r.resolves@.len() - i,
    {
        if text_eq(r.resolves[i].as_str(), target) {
            return true;
        }
        i = i + 1;
    }
    false
}

/// A report links to every report it supersedes or resolves, wherever the
/// target stands in its list of resolved reports, and to no other.
pub proof fn lemma_links_anywhere(r: ReportLinks, target: Seq<char>, k: int)
    ensures
        0 <= k < r.resolves@.len() && r.resolves@[k]@ == target ==> links_to(r, target),
        (r.supersedes matches Some(s) && s@ == target) ==> links_to(r, target),
        links_to(r, target) ==> ((r.supersedes matches Some(s) && s@ == target)
            || exists|i: int| 0 <= i < r.resolves@.len() && (#[trigger] r.resolves@[i])@ == target),
{
}

/// The first report that links to `target`: a referenced report cannot be
/// deleted (`409 REPORT_REFERENCED`, naming that report) until the one that
/// references it is.
pub fn referencing_report(reports: &Vec<ReportLinks>, target: &str) -> (res: Option<usize>)
    ensures
        match res {
            Some(i) => i < reports@.len() && links_to(reports@[i as int], target@)
                && forall|j: int| 0 <= j < i ==> !links_to(#[trigger] reports@[j], target@),
            None => forall|j: int| 0 <= j < reports@.len() ==> !links_to(#[trigger] reports@[j], target@),
        },
        res is None ==> forall|j: int, k: int|
            0 <= j < reports@.len() && 0 <= k < reports@[j].resolves@.len() ==> (#[trigger] reports@[j].resolves@[k])@ != target@,
        res is None ==> forall|j: int| 0 <= j < reports@.len() ==> !((#[trigger] reports@[j]).supersedes matches Some(s) && s@ == target@),
        res matches Some(i) ==> ((reports@[i as int].supersedes matches Some(s) && s@ == target@)
            || exists|k: int| 0 <= k < reports@[i as int].resolves@.len() && (#[trigger] reports@[i as int].resolves@[k])@ == target@),
{
    let mut i: usize = 0;
    while i < reports.len()
        invariant
            i <= reports@.len(),
            forall|j: int| 0 <= j < i ==> !links_to(#[trigger] reports@[j], target@),
        decreases reports@.len() - i,
    {
        if links(&reports[i], target) {
            return Some(i);
        }
        i = i + 1;
    }
    None
}

/// What still holds a source against deletion: a pinned card is in focus
/// (`409 CARD_IN_FOCUS`); a report that another report links to is
/// referenced (`409 REPORT_REFERENCED`). Only cards and reports are deleted
/// this way. A card that is gone already holds nothing.
pub open spec fn guard_refusal(kind: DocKind, card_pinned: bool, referenced: bool) -> Option<Seq<char>> {
    match kind {
        DocKind::Card => if card_pinned { Some("CARD_IN_FOCUS"@) } else { None },
        DocKind::Update => if referenced { Some("REPORT_REFERENCED"@) } else { None },
        _ => None,
    }
}

/// A card in focus cannot be deleted, nor a report another report links
/// to; nothing else holds a card or a report.
pub proof fn lemma_guard(kind: DocKind, card_pinned: bool, referenced: bool)
    ensures
        kind is Card ==> (guard_refusal(kind, card_pinned, referenced) is Some <==> card_pinned),
        kind is Card && card_pinned ==> guard_refusal(kind, card_pinned, referenced) == Some("CARD_IN_FOCUS"@),
        kind is Update ==> (guard_refusal(kind, card_pinned, referenced) is Some <==> referenced),
        kind is Update && referenced ==> guard_refusal(kind, card_pinned, referenced) == Some("REPORT_REFERENCED"@),
{
}

pub fn check_guard(kind: DocKind, card_pinned: bool, referenced: bool) -> (res: Result<(), AppError>)
    ensures
        (kind is Card || kind is Update) ==> match guard_refusal(kind, card_pinned, referenced) {
            Some(code) => res matches Err(e) && is_rejection(e, 409, code),
            None => res is Ok,
        },
        !(kind is Card || kind is Update) ==> (res matches Err(e) && e matches AppError::Invariant(c)
            && c@ == "unsupported source deletion"@),
{
    match kind {
        DocKind::Card => if card_pinned {
            Err(AppError::reject(409, "CARD_IN_FOCUS"))
        } else {
            Ok(())
        },
        DocKind::Update => if referenced {
            Err(AppError::reject(409, "REPORT_REFERENCED"))
        } else {
            Ok(())
        },
        _ => Err(AppError::invariant_failed("unsupported source deletion")),
    }
}

/// How recovery treats a prepared source write: one with bytes to write
/// back is finished; a deletion of a card or a report is finished only when
/// nothing holds the source any more; anything else stops for review.
pub enum RecoveryCheck {
    Finish,
    Review,
    /// Check the deletion guard again, and finish only if it passes.
    Guard,
}

pub fn recovery_check(has_after: bool, method: &str, kind: DocKind) -> (res: RecoveryCheck)
    ensures
        has_after ==> res is Finish,
        !has_after && method@ == "DELETE"@ && (kind is Card || kind is Update) ==> res is Guard,
        !has_after && !(method@ == "DELETE"@ && (kind is Card || kind is Update)) ==> res is Review,
{
    if has_after {
        return RecoveryCheck::Finish;
    }
    let deletable = match kind {
        DocKind::Card => true,
        DocKind::Update => true,
        _ => false,
    };
    if text_eq(method, "DELETE") && deletable {
        RecoveryCheck::Guard
    } else {
        RecoveryCheck::Review
    }
}

/// Whether recovery finishes a deletion after checking its guard again: it
/// does when the guard passes, stops for review when the guard refuses, and
/// fails with any other error.
pub fn finish_after_guard(guard: Result<(), AppError>) -> (res: Result<bool, AppError>)
    ensures
        match guard {
            Ok(()) => res == Ok::<bool, AppError>(true),
            Err(AppError::Rejected(_)) => res == Ok::<bool, AppError>(false),
            Err(e) => res == Err::<bool, AppError>(e),
        },
{
    match guard {
        Ok(()) => Ok(true),
        Err(AppError::Rejected(_)) => Ok(false),
        Err(e) => Err(e),
    }
}

/// What serving a source deletion decides before anything is deleted.
pub enum SourceDeletion {
    /// The journal answered at admission (another epoch, a retry, a request
    /// outside the window): nothing else is read or recorded.
    Answered(Reply),
    /// Refused: the command is recorded as rejected with this reply, which
    /// answers it.
    Rejected(Reply),
    /// Failed with an error that is not a refusal.
    Failed(AppError),
    /// Delete the source.
    Proceed,
}

/// The outcome of a failed lookup: a refusal is recorded with the
/// command's request ID; any other error fails the request.
pub open spec fn deletion_from(error: AppError, request_id: Seq<char>, res: SourceDeletion) -> bool {
    match res {
        SourceDeletion::Rejected(r) => rejected_with(error, request_id, Ok(r)),
        SourceDeletion::Failed(f) => rejected_with(error, request_id, Err(f)),
        _ => false,
    }
}

fn from_error(error: AppError, request_id: &str) -> (res: SourceDeletion)
    ensures
        deletion_from(error, request_id@, res),
{
    match reject_error(error, request_id) {
        Ok(r) => SourceDeletion::Rejected(r),
        Err(e) => SourceDeletion::Failed(e),
    }
}

/// Decides a source deletion in the order it is served. Admission comes
/// before every source and registration lookup, so a retry is answered
/// from its record whatever else holds. Then: a payload other than `{}`
/// (`422 VALIDATION_FAILED`), no expected version (`428
/// PRECONDITION_REQUIRED`), the project's store, the source's preflight,
/// what still holds the source, the project document, and an archived
/// project (`409 PROJECT_ARCHIVED`); the first that fails decides.
pub fn source_deletion(
    admitted: Option<Reply>,
    payload_empty: bool,
    has_expected: bool,
    store: Result<(), AppError>,
    preflight: Result<(), AppError>,
    guard: Result<(), AppError>,
    project_archived: Result<bool, AppError>,
    request_id: &str,
) -> (res: SourceDeletion)
    ensures
        admitted matches Some(r) ==> res == SourceDeletion::Answered(r),
        admitted is None ==> if !payload_empty {
            res matches SourceDeletion::Rejected(r) && is_error_reply(r, 422, "VALIDATION_FAILED"@, request_id@)
        } else if !has_expected {
            res matches SourceDeletion::Rejected(r) && is_error_reply(r, 428, "PRECONDITION_REQUIRED"@, request_id@)
        } else {
            match store {
                Err(e) => deletion_from(e, request_id@, res),
                Ok(_) => match preflight {
                    Err(e) => deletion_from(e, request_id@, res),
                    Ok(_) => match guard {
                        Err(e) => deletion_from(e, request_id@, res),
                        Ok(_) => match project_archived {
                            Err(e) => deletion_from(e, request_id@, res),
                            Ok(true) => res matches SourceDeletion::Rejected(r) && is_error_reply(r, 409, "PROJECT_ARCHIVED"@, request_id@),
                            Ok(false) => res is Proceed,
                        },
                    },
                },
            }
        },
{
    if let Some(r) = admitted {
        return SourceDeletion::Answered(r);
    }
    if !payload_empty {
        return SourceDeletion::Rejected(Reply::error(422, "VALIDATION_FAILED", request_id));
    }
    if !has_expected {
        return SourceDeletion::Rejected(Reply::error(428, "PRECONDITION_REQUIRED", request_id));
    }
    if let Err(e) = store {
        return from_error(e, request_id);
    }
    if let Err(e) = preflight {
        return from_error(e, request_id);
    }
    if let Err(e) = guard {
        return from_error(e, request_id);
    }
    match project_archived {
        Err(e) => from_error(e, request_id),
        Ok(true) => SourceDeletion::Rejected(Reply::error(409, "PROJECT_ARCHIVED", request_id)),
        Ok(false) => SourceDeletion::Proceed,
    }
}

} // verus!
