//! Changes to the workspace file: which sections exist, what a change must
//! satisfy before it is written, how a preferences patch applies, and how
//! an interrupted change is recovered.
use crate::reply::{is_rejection, AppError, Reply};
use crate::text::{same_bytes, text_eq};
use crate::writer::{is_error_reply, Recovery};
use vstd::prelude::*;

verus! {

/// The request schema of each workspace section; any other section is `404
/// NOT_FOUND`.
pub open spec fn section_definition(section: Seq<char>) -> Option<Seq<char>> {
    if section == "focus"@ {
        Some("FocusReplace"@)
    } else if section == "preferences"@ {
        Some("PreferencesPatch"@)
    } else if section == "tags"@ {
        Some("TagsReplace"@)
    } else {
        None
    }
}

pub fn definition(section: &str) -> (res: Result<&'static str, AppError>)
    ensures
        match section_definition(section@) {
            Some(d) => res matches Ok(r) && r@ == d,
            None => res matches Err(e) && is_rejection(e, 404, "NOT_FOUND"@),
        },
{
    if text_eq(section, "focus") {
        Ok("FocusReplace")
    } else if text_eq(section, "preferences") {
        Ok("PreferencesPatch")
    } else if text_eq(section, "tags") {
        Ok("TagsReplace")
    } else {
        Err(AppError::reject(404, "NOT_FOUND"))
    }
}

/// What a workspace change must satisfy before the file is read, in this
/// order: no workspace recovery pending, no registration job unresolved, a
/// named version, a valid payload, and tag names without NUL.
pub open spec fn change_refusal(
    workspace_pending: bool,
    jobs_pending: bool,
    has_expected: bool,
    payload_valid: bool,
    tag_with_nul: bool,
) -> Option<(u16, Seq<char>)> {
    if workspace_pending {
        Some((409u16, "WORKSPACE_RECOVERY_REQUIRED"@))
    } else if jobs_pending {
        Some((409u16, "REGISTRATION_RECOVERY_REQUIRED"@))
    } else if !has_expected {
        Some((428u16, "PRECONDITION_REQUIRED"@))
    } else if !payload_valid {
        Some((422u16, "VALIDATION_FAILED"@))
    } else if tag_with_nul {
        Some((422u16, "TAG_NAME_INVALID"@))
    } else {
        None
    }
}

pub fn check_change(
    workspace_pending: bool,
    jobs_pending: bool,
    has_expected: bool,
    payload_valid: bool,
    tag_with_nul: bool,
    request_id: &str,
) -> (res: Option<Reply>)
    ensures
        match change_refusal(workspace_pending, jobs_pending, has_expected, payload_valid, tag_with_nul) {
            Some((status, code)) => res matches Some(r) && is_error_reply(r, status, code, request_id@),
            None => res is None,
        },
{
    if workspace_pending {
        Some(Reply::error(409, "WORKSPACE_RECOVERY_REQUIRED", request_id))
    } else if jobs_pending {
        Some(Reply::error(409, "REGISTRATION_RECOVERY_REQUIRED", request_id))
    } else if !has_expected {
        Some(Reply::error(428, "PRECONDITION_REQUIRED", request_id))
    } else if !payload_valid {
        Some(Reply::error(422, "VALIDATION_FAILED", request_id))
    } else if tag_with_nul {
        Some(Reply::error(422, "TAG_NAME_INVALID", request_id))
    } else {
        None
    }
}

/// Whether some tag name holds a NUL.
pub fn any_nul(tags: &Vec<String>) -> (res: bool)
    ensures
        res == exists|i: int| 0 <= i < tags@.len() && (#[trigger] tags@[i])@.contains('\0'),
{
    let mut i: usize = 0;
    while i < tags.len()
        invariant
            i <= tags.len(),
            forall|j: int| 0 <= j < i ==> !(#[trigger] tags@[j])@.contains('\0'),
        decreases tags.len() - i,
    {
        let t = tags[i].as_str();
        let n = t.unicode_len();
        let mut k: usize = 0;
        while k < n
            invariant
                i < tags.len(),
                t@ == tags@[i as int]@,
                k <= n,
                n == t@.len(),
                forall|m: int| 0 <= m < k ==> t@[m] != '\0',
            decreases n - k,
        {
            if t.get_char(k) == '\0' {
                assert(tags@[i as int]@[k as int] == '\0');
                return true;
            }
            k = k + 1;
        }
        assert(!tags@[i as int]@.contains('\0'));
        i = i + 1;
    }
    false
}

/// The workspace file must still be the version the client saw: `412
/// VERSION_CONFLICT`.
pub fn check_version(actual: &str, expected: &str, request_id: &str) -> (res: Option<Reply>)
    ensures
        actual@ == expected@ ==> res is None,
        actual@ != expected@ ==> (res matches Some(r) && is_error_reply(r, 412, "VERSION_CONFLICT"@, request_id@)),
{
    if text_eq(actual, expected) {
        None
    } else {
        Some(Reply::error(412, "VERSION_CONFLICT", request_id))
    }
}

/// An archived card cannot join the focus: the change no longer matches
/// the cards that may be in focus, `409 FOCUS_MEMBERSHIP_CHANGED`.
pub fn check_focus_target(archived: bool, request_id: &str) -> (res: Option<Reply>)
    ensures
        archived ==> (res matches Some(r) && is_error_reply(r, 409, "FOCUS_MEMBERSHIP_CHANGED"@, request_id@)),
        !archived ==> res is None,
{
    if archived {
        Some(Reply::error(409, "FOCUS_MEMBERSHIP_CHANGED", request_id))
    } else {
        None
    }
}

/// The workspace's preferences.
pub struct Preferences {
    pub timezone: String,
    pub locale: String,
    pub week_start: Option<String>,
    pub default_view: Option<String>,
}

fn same_opt_text(a: &Option<String>, b: &Option<String>) -> (res: bool)
    ensures
        res == (opt_view(*a) == opt_view(*b)),
{
    match (a, b) {
        (None, None) => true,
        (Some(x), Some(y)) => text_eq(x.as_str(), y.as_str()),
        _ => false,
    }
}

/// Whether a preferences change alters nothing, which makes the change a
/// `noop`: recorded committed and never written.
pub fn preferences_unchanged(before: &Preferences, after: &Preferences) -> (res: bool)
    ensures
        res == (prefs_view(*before) == prefs_view(*after)),
{
    text_eq(before.timezone.as_str(), after.timezone.as_str()) && text_eq(before.locale.as_str(), after.locale.as_str())
        && same_opt_text(&before.week_start, &after.week_start) && same_opt_text(&before.default_view, &after.default_view)
}

/// A patch of the preferences: each field present replaces its value.
pub struct PreferencesPatch {
    pub timezone: Option<String>,
    pub locale: Option<String>,
    pub week_start: Option<String>,
    pub default_view: Option<String>,
}

pub type PrefsView = (Seq<char>, Seq<char>, Option<Seq<char>>, Option<Seq<char>>);

pub open spec fn opt_view(o: Option<String>) -> Option<Seq<char>> {
    match o {
        Some(s) => Some(s@),
        None => None,
    }
}

pub open spec fn prefs_view(p: Preferences) -> PrefsView {
    (p.timezone@, p.locale@, opt_view(p.week_start), opt_view(p.default_view))
}

pub open spec fn patch_view(p: PreferencesPatch) -> (Option<Seq<char>>, Option<Seq<char>>, Option<Seq<char>>, Option<Seq<char>>) {
    (opt_view(p.timezone), opt_view(p.locale), opt_view(p.week_start), opt_view(p.default_view))
}

pub open spec fn or_keep(new: Option<Seq<char>>, old: Seq<char>) -> Seq<char> {
    match new {
        Some(v) => v,
        None => old,
    }
}

pub open spec fn or_keep_opt(new: Option<Seq<char>>, old: Option<Seq<char>>) -> Option<Seq<char>> {
    match new {
        Some(v) => Some(v),
        None => old,
    }
}

/// The preferences after a patch.
pub open spec fn patched(p: PrefsView, patch: (Option<Seq<char>>, Option<Seq<char>>, Option<Seq<char>>, Option<Seq<char>>)) -> PrefsView {
    (or_keep(patch.0, p.0), or_keep(patch.1, p.1), or_keep_opt(patch.2, p.2), or_keep_opt(patch.3, p.3))
}

/// Whether chrono-tz knows a time zone by this name.
pub uninterp spec fn known_zone(name: Seq<char>) -> bool;

/// `chrono_tz::Tz::from_str`: whether the name is in the crate's compiled
/// time zone database, which its source looks up by exact name.
#[verifier::external_body]
fn zone_known(name: &str) -> (res: bool)
    ensures
        res == known_zone(name@),
{
    name.parse::<chrono_tz::Tz>().is_ok()
}

fn keep_or(new: &Option<String>, old: &String) -> (res: String)
    ensures
        res@ == or_keep(opt_view(*new), old@),
{
    match new {
        Some(v) => v.clone(),
        None => old.clone(),
    }
}

fn keep_or_opt(new: &Option<String>, old: &Option<String>) -> (res: Option<String>)
    ensures
        opt_view(res) == or_keep_opt(opt_view(*new), opt_view(*old)),
{
    match new {
        Some(v) => Some(v.clone()),
        None => match old {
            Some(o) => Some(o.clone()),
            None => None,
        },
    }
}

/// Applies a preferences patch. A time zone that chrono-tz does not know is
/// `422 INVALID_TIMEZONE`.
pub fn apply_patch(prefs: &Preferences, patch: &PreferencesPatch) -> (res: Result<Preferences, AppError>)
    ensures
        match patch.timezone {
            Some(z) => if known_zone(z@) {
                res matches Ok(p) && prefs_view(p) == patched(prefs_view(*prefs), patch_view(*patch))
            } else {
                res matches Err(e) && is_rejection(e, 422, "INVALID_TIMEZONE"@)
            },
            None => res matches Ok(p) && prefs_view(p) == patched(prefs_view(*prefs), patch_view(*patch)),
        },
        res matches Ok(q) ==> (patch.timezone matches Some(z) ==> q.timezone@ == z@),
        res matches Ok(q) ==> (patch.timezone is None ==> q.timezone@ == prefs.timezone@),
        res matches Ok(q) ==> (patch.locale matches Some(l) ==> q.locale@ == l@),
        res matches Ok(q) ==> (patch.locale is None ==> q.locale@ == prefs.locale@),
        res matches Ok(q) ==> (patch.week_start matches Some(w) ==> q.week_start matches Some(x) && x@ == w@),
        res matches Ok(q) ==> (patch.week_start is None ==> opt_view(q.week_start) == opt_view(prefs.week_start)),
        res matches Ok(q) ==> (patch.default_view matches Some(d) ==> q.default_view matches Some(x) && x@ == d@),
        res matches Ok(q) ==> (patch.default_view is None ==> opt_view(q.default_view) == opt_view(prefs.default_view)),
{
    if let Some(zone) = &patch.timezone {
        if !zone_known(zone.as_str()) {
            return Err(AppError::reject(422, "INVALID_TIMEZONE"));
        }
    }
    Ok(Preferences {
        timezone: keep_or(&patch.timezone, &prefs.timezone),
        locale: keep_or(&patch.locale, &prefs.locale),
        week_start: keep_or_opt(&patch.week_start, &prefs.week_start),
        default_view: keep_or_opt(&patch.default_view, &prefs.default_view),
    })
}

/// A patch sets exactly the fields it names: each named field takes the
/// patch's value, and each field it leaves out keeps its value.
pub proof fn lemma_patch_sets_named_fields(
    p: PrefsView,
    patch: (Option<Seq<char>>, Option<Seq<char>>, Option<Seq<char>>, Option<Seq<char>>),
)
    ensures
        patch.0 matches Some(z) ==> patched(p, patch).0 == z,
        patch.0 is None ==> patched(p, patch).0 == p.0,
        patch.1 matches Some(l) ==> patched(p, patch).1 == l,
        patch.1 is None ==> patched(p, patch).1 == p.1,
        patch.2 matches Some(w) ==> patched(p, patch).2 == Some(w),
        patch.2 is None ==> patched(p, patch).2 == p.2,
        patch.3 matches Some(d) ==> patched(p, patch).3 == Some(d),
        patch.3 is None ==> patched(p, patch).3 == p.3,
{
}

/// An empty patch changes nothing, so its write is a no-op.
pub proof fn lemma_empty_patch_keeps(p: PrefsView)
    ensures
        patched(p, (None, None, None, None)) == p,
{
}

/// Applying a patch twice is applying it once: a retried change that was
/// already written finds nothing left to change.
pub proof fn lemma_patch_idempotent(
    p: PrefsView,
    patch: (Option<Seq<char>>, Option<Seq<char>>, Option<Seq<char>>, Option<Seq<char>>),
)
    ensures
        patched(patched(p, patch), patch) == patched(p, patch),
{
}

/// What recovering an interrupted workspace change does: keep a result
/// already written, refuse with `409 WORKSPACE_SOURCE_CHANGED` when the file
/// holds neither version, and otherwise write the planned bytes.
pub fn recovery_step(actual: Option<&[u8]>, before: &[u8], after: &[u8]) -> (res: Result<Recovery, AppError>)
    ensures
        match actual {
            Some(a) => if a@ == after@ {
                res == Ok::<Recovery, AppError>(Recovery::Resync)
            } else if a@ == before@ {
                res == Ok::<Recovery, AppError>(Recovery::Replace)
            } else {
                res matches Err(e) && is_rejection(e, 409, "WORKSPACE_SOURCE_CHANGED"@)
            },
            None => res matches Err(e) && is_rejection(e, 409, "WORKSPACE_SOURCE_CHANGED"@),
        },
{
    match actual {
        None => Err(AppError::reject(409, "WORKSPACE_SOURCE_CHANGED")),
        Some(a) => {
            if same_bytes(a, after) {
                Ok(Recovery::Resync)
            } else if same_bytes(a, before) {
                Ok(Recovery::Replace)
            } else {
                Err(AppError::reject(409, "WORKSPACE_SOURCE_CHANGED"))
            }
        },
    }
}

/// A focus reference recorded with the change must still hold: the same
/// project path and the same card version, or `409 FOCUS_REFERENCE_CHANGED`.
pub fn check_reference(recorded_path: Option<&str>, store_path: Option<&str>, recorded_version: &str, version: &str) -> (res: Result<(), AppError>)
    ensures
        ((match (recorded_path, store_path) {
            (Some(a), Some(b)) => a@ == b@,
            (None, None) => true,
            _ => false,
        }) && recorded_version@ == version@) ==> res is Ok,
        !((match (recorded_path, store_path) {
            (Some(a), Some(b)) => a@ == b@,
            (None, None) => true,
            _ => false,
        }) && recorded_version@ == version@) ==> (res matches Err(e) && is_rejection(e, 409, "FOCUS_REFERENCE_CHANGED"@)),
{
    let same_path = match (recorded_path, store_path) {
        (Some(a), Some(b)) => text_eq(a, b),
        (None, None) => true,
        _ => false,
    };
    if !same_path || !text_eq(recorded_version, version) {
        Err(AppError::reject(409, "FOCUS_REFERENCE_CHANGED"))
    } else {
        Ok(())
    }
}

} // verus!
