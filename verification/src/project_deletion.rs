//! Permanent removal of a registered project's `.project` tree: which
//! requests may start it, how store failures are reported, and what each
//! resumption does with the workspace file.
use crate::reply::{is_rejection, AppError, Reply, StoreFailure};
use crate::text::{same_bytes, text_eq, utf8_text};
use crate::writer::{is_error_reply, Recovery};
use vstd::prelude::*;
use vstd::utf8::{decode_utf8, valid_utf8};

verus! {

/// A path's text, when its bytes are UTF-8; otherwise an invariant failure,
/// since registered paths are UTF-8.
pub fn path_text(path: &[u8]) -> (res: Result<String, AppError>)
    ensures
        valid_utf8(path@) ==> (res matches Ok(s) && s@ == decode_utf8(path@)),
        !valid_utf8(path@) ==> (res matches Err(e) && e matches AppError::Invariant(c)
            && c@ == "project deletion UTF-8 path"@),
{
    match utf8_text(path) {
        Some(s) => Ok(s),
        None => Err(AppError::invariant_failed("project deletion UTF-8 path")),
    }
}

pub open spec fn ends_with_limit(code: Seq<char>) -> bool {
    code.len() >= 5 && code.subrange(code.len() - 5, code.len() as int) == "LIMIT"@
}

fn code_ends_with_limit(code: &str) -> (res: bool)
    ensures
        res == ends_with_limit(code@),
{
    proof {
        reveal_strlit("LIMIT");
    }
    let n = code.unicode_len();
    if n < 5 {
        return false;
    }
    let tail = code.substring_char(n - 5, n);
    text_eq(tail, "LIMIT")
}

/// How a failure to inventory or remove the tree is reported: a store rule's
/// code becomes a refusal (`422` for limits, `409` otherwise), a vanished
/// entry is `409 PROJECT_TREE_CHANGED`, and anything else stays a store
/// failure.
pub fn tree_error(error: StoreFailure) -> (res: AppError)
    ensures
        match error {
            StoreFailure::Invalid { code } => is_rejection(res, if ends_with_limit(code@) { 422 } else { 409 }, code@),
            StoreFailure::Io { kind } => if kind@ == "NotFound"@ {
                is_rejection(res, 409, "PROJECT_TREE_CHANGED"@)
            } else {
                res == AppError::Store(StoreFailure::Io { kind })
            },
            other => res == AppError::Store(other),
        },
{
    match error {
        StoreFailure::Invalid { code } => {
            let status: u16 = if code_ends_with_limit(code.as_str()) { 422 } else { 409 };
            AppError::reject(status, code.as_str())
        },
        StoreFailure::Io { kind } => {
            if text_eq(kind.as_str(), "NotFound") {
                AppError::reject(409, "PROJECT_TREE_CHANGED")
            } else {
                AppError::Store(StoreFailure::Io { kind })
            }
        },
        other => AppError::Store(other),
    }
}

/// What a deletion request is checked for before anything is read, in this
/// order: an empty payload, a named version, no recovery pending for the
/// project or the workspace, no other deletion pending, and no registration
/// job unresolved.
pub open spec fn deletion_refusal(
    payload_empty: bool,
    has_expected: bool,
    recovery_pending: bool,
    deletion_pending: bool,
    jobs_pending: bool,
) -> Option<(u16, Seq<char>)> {
    if !payload_empty {
        Some((422u16, "VALIDATION_FAILED"@))
    } else if !has_expected {
        Some((428u16, "PRECONDITION_REQUIRED"@))
    } else if recovery_pending {
        Some((409u16, "RECOVERY_REQUIRED"@))
    } else if deletion_pending {
        Some((409u16, "PROJECT_DELETION_PENDING"@))
    } else if jobs_pending {
        Some((409u16, "REGISTRATION_RECOVERY_REQUIRED"@))
    } else {
        None
    }
}

pub fn check_deletion(
    payload_empty: bool,
    has_expected: bool,
    recovery_pending: bool,
    deletion_pending: bool,
    jobs_pending: bool,
    request_id: &str,
) -> (res: Option<Reply>)
    ensures
        match deletion_refusal(payload_empty, has_expected, recovery_pending, deletion_pending, jobs_pending) {
            Some((status, code)) => res matches Some(r) && is_error_reply(r, status, code, request_id@),
            None => res is None,
        },
{
    if !payload_empty {
        Some(Reply::error(422, "VALIDATION_FAILED", request_id))
    } else if !has_expected {
        Some(Reply::error(428, "PRECONDITION_REQUIRED", request_id))
    } else if recovery_pending {
        Some(Reply::error(409, "RECOVERY_REQUIRED", request_id))
    } else if deletion_pending {
        Some(Reply::error(409, "PROJECT_DELETION_PENDING", request_id))
    } else if jobs_pending {
        Some(Reply::error(409, "REGISTRATION_RECOVERY_REQUIRED", request_id))
    } else {
        None
    }
}

/// What finishing a deletion does with the workspace file: replace the
/// planned bytes, keep the result already written, or refuse with `409
/// WORKSPACE_SOURCE_CHANGED` when the file holds neither.
pub fn workspace_step(actual: &[u8], before: &[u8], after: &[u8]) -> (res: Result<Recovery, AppError>)
    ensures
        actual@ == before@ ==> res == Ok::<Recovery, AppError>(Recovery::Replace),
        actual@ != before@ && actual@ == after@ ==> res == Ok::<Recovery, AppError>(Recovery::Resync),
        actual@ != before@ && actual@ != after@ ==> (res matches Err(e) && is_rejection(e, 409, "WORKSPACE_SOURCE_CHANGED"@)),
{
    if same_bytes(actual, before) {
        Ok(Recovery::Replace)
    } else if same_bytes(actual, after) {
        Ok(Recovery::Resync)
    } else {
        Err(AppError::reject(409, "WORKSPACE_SOURCE_CHANGED"))
    }
}

/// A resumed deletion's manifest must be the one its command admitted:
/// the same project, and a plan version that both the command and a fresh
/// snapshot of the manifest name.
pub fn check_manifest(
    manifest_project: &str,
    command_project: &str,
    expected: Option<&str>,
    plan_version: &str,
    snapshot_version: &str,
) -> (res: Result<(), AppError>)
    ensures
        (manifest_project@ == command_project@ && (expected matches Some(e) && e@ == plan_version@)
            && snapshot_version@ == plan_version@) ==> res is Ok,
        !(manifest_project@ == command_project@ && (expected matches Some(e) && e@ == plan_version@)
            && snapshot_version@ == plan_version@) ==> (res matches Err(e) && e matches AppError::Invariant(c)
            && c@ == "project deletion manifest identity"@),
{
    let named = match expected {
        Some(e) => text_eq(e, plan_version),
        None => false,
    };
    if !text_eq(manifest_project, command_project) || !named || !text_eq(snapshot_version, plan_version) {
        Err(AppError::invariant_failed("project deletion manifest identity"))
    } else {
        Ok(())
    }
}

/// Whether `path` lies at or below `base`, comparing whole components.
pub uninterp spec fn path_within(path: Seq<char>, base: Seq<char>) -> bool;

/// `std::path::Path::starts_with`: whether the components of `base` begin
/// those of `path`. The result depends on the two strings alone.
#[verifier::external_body]
fn starts_with(path: &str, base: &str) -> (res: bool)
    ensures
        res == path_within(path@, base@),
{
    std::path::Path::new(path).starts_with(base)
}

/// A project's metadata folder, as `Path::join` spells it: `.project`
/// after the root, with a separator unless the root ends in one or is
/// empty.
pub open spec fn meta_dir_spec(root: Seq<char>) -> Seq<char> {
    if root.len() == 0 {
        ".project"@
    } else if root.last() == '/' {
        root + ".project"@
    } else {
        root + "/.project"@
    }
}

pub fn meta_dir(root: &str) -> (res: String)
    ensures
        res@ == meta_dir_spec(root@),
{
    let n = root.unicode_len();
    if n == 0 {
        return ".project".to_owned();
    }
    let mut out = root.to_owned();
    if root.get_char(n - 1) == '/' {
        out.append(".project");
    } else {
        out.append("/.project");
    }
    out
}

/// What deleting a project's metadata folder may not take with it: the
/// server's own state (`409 PROJECT_CONTAINS_SERVER_STATE`) or another
/// registered project (`409 PROJECT_CONTAINS_REGISTERED_PROJECT`).
/// `projects` are the registrations as ID and path.
pub fn check_scope(state_dir: &str, root: &str, id: &str, projects: &Vec<(String, String)>) -> (res: Result<(), AppError>)
    ensures
        path_within(state_dir@, meta_dir_spec(root@)) ==> (res matches Err(e) && is_rejection(e, 409, "PROJECT_CONTAINS_SERVER_STATE"@)),
        !path_within(state_dir@, meta_dir_spec(root@)) && (exists|i: int| 0 <= i < projects@.len() && (#[trigger] projects@[i]).0@ != id@
            && path_within(projects@[i].1@, meta_dir_spec(root@))) ==> (res matches Err(e) && is_rejection(e, 409, "PROJECT_CONTAINS_REGISTERED_PROJECT"@)),
        !path_within(state_dir@, meta_dir_spec(root@)) && !(exists|i: int| 0 <= i < projects@.len() && (#[trigger] projects@[i]).0@ != id@
            && path_within(projects@[i].1@, meta_dir_spec(root@))) ==> res is Ok,
{
    let deleted = meta_dir(root);
    if starts_with(state_dir, deleted.as_str()) {
        return Err(AppError::reject(409, "PROJECT_CONTAINS_SERVER_STATE"));
    }
    let mut i: usize = 0;
    while i < projects.len()
        invariant
            i <= projects@.len(),
            deleted@ == meta_dir_spec(root@),
            !path_within(state_dir@, meta_dir_spec(root@)),
            forall|j: int| 0 <= j < i ==> !((#[trigger] projects@[j]).0@ != id@ && path_within(projects@[j].1@, meta_dir_spec(root@))),
        decreases projects@.len() - i,
    {
        if !text_eq(projects[i].0.as_str(), id) && starts_with(projects[i].1.as_str(), deleted.as_str()) {
            return Err(AppError::reject(409, "PROJECT_CONTAINS_REGISTERED_PROJECT"));
        }
        i = i + 1;
    }
    Ok(())
}

} // verus!
