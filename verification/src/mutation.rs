//! Source mutations: which request shapes exist, which ID a request
//! targets, what a patch may not do, and where a reordered document lands
//! among its siblings.
use crate::auth::random_bytes;
use crate::ids::{canonical_uuid_spec, hyphenated_lower};
use crate::text::ascii_chars;
use crate::reply::{is_rejection, AppError, Reply};
use crate::text::text_eq;
use crate::writer::is_error_reply;
use vstd::prelude::*;

verus! {

/// The kinds of source documents.
#[derive(Debug, Clone, Copy, PartialEq, Eq, Structural)]
pub enum DocKind {
    Project,
    Card,
    Milestone,
    Update,
}

pub open spec fn kind_text(kind: DocKind) -> Seq<char> {
    match kind {
        DocKind::Project => "project"@,
        DocKind::Card => "card"@,
        DocKind::Milestone => "milestone"@,
        DocKind::Update => "update"@,
    }
}

impl DocKind {
    pub fn as_str(&self) -> (res: &'static str)
        ensures
            res@ == kind_text(*self),
    {
        match self {
            DocKind::Project => "project",
            DocKind::Card => "card",
            DocKind::Milestone => "milestone",
            DocKind::Update => "update",
        }
    }

    /// The folder of a kind's documents; a project's document is
    /// `project.md` at the top.
    pub fn directory(&self) -> (res: Option<&'static str>)
        ensures
            match *self {
                DocKind::Project => res is None,
                DocKind::Card => res matches Some(d) && d@ == "cards"@,
                DocKind::Milestone => res matches Some(d) && d@ == "milestones"@,
                DocKind::Update => res matches Some(d) && d@ == "updates"@,
            },
    {
        match self {
            DocKind::Project => None,
            DocKind::Card => Some("cards"),
            DocKind::Milestone => Some("milestones"),
            DocKind::Update => Some("updates"),
        }
    }
}

/// The request schema of each mutation; the others are `405
/// METHOD_NOT_ALLOWED`. Cards and milestones are created and patched,
/// updates only created, projects only patched.
pub open spec fn definition_spec(kind: DocKind, create: bool) -> Option<Seq<char>> {
    match (kind, create) {
        (DocKind::Card, true) => Some("CardCreate"@),
        (DocKind::Card, false) => Some("CardPatch"@),
        (DocKind::Milestone, true) => Some("MilestoneCreate"@),
        (DocKind::Milestone, false) => Some("MilestonePatch"@),
        (DocKind::Update, true) => Some("UpdateCreate"@),
        (DocKind::Project, false) => Some("ProjectPatch"@),
        _ => None,
    }
}

pub fn definition(kind: DocKind, create: bool) -> (res: Result<&'static str, AppError>)
    ensures
        match definition_spec(kind, create) {
            Some(d) => res matches Ok(r) && r@ == d,
            None => res matches Err(e) && is_rejection(e, 405, "METHOD_NOT_ALLOWED"@),
        },
{
    match (kind, create) {
        (DocKind::Card, true) => Ok("CardCreate"),
        (DocKind::Card, false) => Ok("CardPatch"),
        (DocKind::Milestone, true) => Ok("MilestoneCreate"),
        (DocKind::Milestone, false) => Ok("MilestonePatch"),
        (DocKind::Update, true) => Ok("UpdateCreate"),
        (DocKind::Project, false) => Ok("ProjectPatch"),
        _ => Err(AppError::reject(405, "METHOD_NOT_ALLOWED")),
    }
}

/// The bytes of the version 4 UUID that `uuid::Builder::from_random_bytes`
/// makes of 16 random bytes: byte six gets version 4 in its high nibble,
/// byte eight the RFC 4122 variant in its top two bits.
pub open spec fn v4_bytes(b: Seq<u8>) -> Seq<u8> {
    b.update(6, ((b[6] % 16) + 64) as u8).update(8, ((b[8] % 64) + 128) as u8)
}

/// `uuid::Builder::from_random_bytes(bytes).into_uuid().to_string()`: the
/// version 4 UUID of these random bytes, in the crate's lowercase
/// hyphenated spelling, which is canonical: it parses back to the same
/// UUID, of version 4 and the RFC 4122 variant.
#[verifier::external_body]
fn v4_text(bytes: [u8; 16]) -> (res: String)
    ensures
        res@ == ascii_chars(hyphenated_lower(v4_bytes(bytes@))),
        canonical_uuid_spec(res@, 4),
{
    uuid::Builder::from_random_bytes(bytes).into_uuid().to_string()
}

/// A fresh random version 4 UUID, or `None` when the system cannot supply
/// randomness.
pub(crate) fn fresh_v4() -> (res: Option<String>)
    ensures
        res matches Some(s) ==> canonical_uuid_spec(s@, 4),
{
    match random_bytes() {
        Some(b) => {
            let bytes: [u8; 16] = [
                b[0], b[1], b[2], b[3], b[4], b[5], b[6], b[7], b[8], b[9], b[10], b[11], b[12], b[13], b[14], b[15],
            ];
            Some(v4_text(bytes))
        },
        None => None,
    }
}

/// The error of a step that needed randomness the system could not supply.
pub open spec fn no_randomness(e: AppError) -> bool {
    e matches AppError::Unavailable(c) && c@ == "system randomness"@
}

/// A fresh random version 4 UUID, or an `Unavailable` error when the
/// system cannot supply randomness.
pub fn fresh_id() -> (res: Result<String, AppError>)
    ensures
        res matches Ok(s) ==> canonical_uuid_spec(s@, 4),
        res matches Err(e) ==> no_randomness(e),
{
    match fresh_v4() {
        Some(s) => Ok(s),
        None => Err(AppError::Unavailable("system randomness".to_owned())),
    }
}

/// The ID a mutation targets: the one named in the path, else the one in
/// the payload, else the one a retry of the same request recorded, else a
/// fresh random ID, which needs the system's randomness.
pub fn target_id(path_id: Option<String>, payload_id: Option<String>, known_id: Option<String>) -> (res: Result<String, AppError>)
    ensures
        path_id matches Some(p) ==> (res matches Ok(r) && r@ == p@),
        path_id is None && payload_id is Some ==> (res matches Ok(r) && r@ == payload_id->0@),
        path_id is None && payload_id is None && known_id is Some ==> (res matches Ok(r) && r@ == known_id->0@),
        path_id is None && payload_id is None && known_id is None ==> match res {
            Ok(r) => canonical_uuid_spec(r@, 4),
            Err(e) => no_randomness(e),
        },
{
    match path_id {
        Some(p) => Ok(p),
        None => match payload_id {
            Some(p) => Ok(p),
            None => match known_id {
                Some(k) => Ok(k),
                None => fresh_id(),
            },
        },
    }
}

/// A patch must name the version it replaces: `428 PRECONDITION_REQUIRED`.
pub fn check_patch_precondition(create: bool, has_expected: bool, request_id: &str) -> (res: Option<Reply>)
    ensures
        (!create && !has_expected) ==> (res matches Some(r) && is_error_reply(r, 428, "PRECONDITION_REQUIRED"@, request_id@)),
        !(!create && !has_expected) ==> res is None,
{
    if !create && !has_expected {
        Some(Reply::error(428, "PRECONDITION_REQUIRED", request_id))
    } else {
        None
    }
}

/// A patch may not set and clear the same field: `422 SET_CLEAR_OVERLAP`.
pub fn check_set_clear(set: &Vec<String>, clear: &Vec<String>) -> (res: Result<(), AppError>)
    ensures
        (exists|i: int, j: int| 0 <= i < clear@.len() && 0 <= j < set@.len() && (#[trigger] clear@[i])@ == (#[trigger] set@[j])@)
            ==> (res matches Err(e) && is_rejection(e, 422, "SET_CLEAR_OVERLAP"@)),
        !(exists|i: int, j: int| 0 <= i < clear@.len() && 0 <= j < set@.len() && (#[trigger] clear@[i])@ == (#[trigger] set@[j])@)
            ==> res is Ok,
{
    let mut i: usize = 0;
    while i < clear.len()
        invariant
            i <= clear.len(),
            forall|a: int, b: int| 0 <= a < i && 0 <= b < set@.len() ==> (#[trigger] clear@[a])@ != (#[trigger] set@[b])@,
        decreases clear.len() - i,
    {
        let mut j: usize = 0;
        while j < set.len()
            invariant
                i < clear.len(),
                j <= set.len(),
                forall|a: int, b: int| 0 <= a < i && 0 <= b < set@.len() ==> (#[trigger] clear@[a])@ != (#[trigger] set@[b])@,
                forall|b: int| 0 <= b < j ==> clear@[i as int]@ != (#[trigger] set@[b])@,
            decreases set.len() - j,
        {
            if text_eq(clear[i].as_str(), set[j].as_str()) {
                return Err(AppError::reject(422, "SET_CLEAR_OVERLAP"));
            }
            j = j + 1;
        }
        i = i + 1;
    }
    Ok(())
}

/// Cards and milestones are reordered when created, when the request
/// places them, or when a card's status changes lane.
pub open spec fn reorders_spec(kind: DocKind, create: bool, has_placement: bool, status_changed: bool) -> bool {
    (kind == DocKind::Card || kind == DocKind::Milestone) && (create || has_placement || status_changed)
}

pub fn reorders(kind: DocKind, create: bool, has_placement: bool, status_changed: bool) -> (res: bool)
    ensures
        res == reorders_spec(kind, create, has_placement, status_changed),
{
    (kind == DocKind::Card || kind == DocKind::Milestone) && (create || has_placement || status_changed)
}

/// A card's dependency graph is checked when it is created, when its
/// dependencies are set, or when it is restored from history.
pub fn validates_dependencies(kind: DocKind, create: bool, sets_depends_on: bool, undo: bool) -> (res: bool)
    ensures
        res == (kind == DocKind::Card && (create || sets_depends_on || undo)),
{
    kind == DocKind::Card && (create || sets_depends_on || undo)
}

/// The first position of `id` among `ids`.
pub open spec fn first_index(ids: Seq<Seq<char>>, id: Seq<char>) -> Option<int> {
    if exists|i: int| 0 <= i < ids.len() && ids[i] == id {
        Some(choose|i: int| 0 <= i < ids.len() && ids[i] == id && forall|j: int| 0 <= j < i ==> ids[j] != id)
    } else {
        None
    }
}

/// The slot an explicit placement names among the ordered sibling `ids`:
/// right after `after` (or first when it names none), where the next
/// sibling must be `before` (or none at the end). When the siblings no
/// longer match, the placement is `409 ORDER_CHANGED`.
pub open spec fn slot_spec(ids: Seq<Seq<char>>, after: Option<Seq<char>>, before: Option<Seq<char>>) -> Option<int> {
    let slot = match after {
        None => Some(0int),
        Some(a) => match first_index(ids, a) {
            Some(i) => Some(i + 1),
            None => None,
        },
    };
    match slot {
        None => None,
        Some(s) => {
            let at = if s < ids.len() { Some(ids[s]) } else { None };
            if at == before { Some(s) } else { None }
        },
    }
}

fn find_first(ids: &Vec<String>, id: &str) -> (res: Option<usize>)
    ensures
        match res {
            Some(i) => i < ids.len() && first_index(ids@.map_values(|s: String| s@), id@) == Some(i as int),
            None => first_index(ids@.map_values(|s: String| s@), id@) is None,
        },
{
    let ghost v = ids@.map_values(|s: String| s@);
    let mut i: usize = 0;
    while i < ids.len()
        invariant
            i <= ids.len(),
            v == ids@.map_values(|s: String| s@),
            forall|j: int| 0 <= j < i ==> v[j] != id@,
        decreases ids.len() - i,
    {
        if text_eq(ids[i].as_str(), id) {
            proof {
                assert(v[i as int] == id@);
                let c = choose|k: int| 0 <= k < v.len() && v[k] == id@ && forall|j: int| 0 <= j < k ==> v[j] != id@;
                if c < i {
                    assert(v[c] != id@);
                } else if c > i {
                    assert(v[i as int] != id@);
                }
            }
            return Some(i);
        }
        i = i + 1;
    }
    None
}

/// Resolves where a reordered document goes among its ordered siblings:
/// at the end without a placement, else at the slot the placement names.
pub fn placement_slot(ids: &Vec<String>, placement: Option<(Option<&str>, Option<&str>)>) -> (res: Result<usize, AppError>)
    ensures
        match placement {
            None => res == Ok::<usize, AppError>(ids@.len() as usize),
            Some((after, before)) => match slot_spec(
                ids@.map_values(|s: String| s@),
                match after {
                    Some(a) => Some(a@),
                    None => None,
                },
                match before {
                    Some(b) => Some(b@),
                    None => None,
                },
            ) {
                Some(s) => res == Ok::<usize, AppError>(s as usize),
                None => res matches Err(e) && is_rejection(e, 409, "ORDER_CHANGED"@),
            },
        },
{
    let ghost v = ids@.map_values(|s: String| s@);
    match placement {
        None => Ok(ids.len()),
        Some((after, before)) => {
            let slot = match after {
                None => 0,
                Some(a) => match find_first(ids, a) {
                    Some(i) => i + 1,
                    None => return Err(AppError::reject(409, "ORDER_CHANGED")),
                },
            };
            let matches = if slot < ids.len() {
                match before {
                    Some(b) => text_eq(ids[slot].as_str(), b),
                    None => false,
                }
            } else {
                before.is_none()
            };
            if matches {
                Ok(slot)
            } else {
                Err(AppError::reject(409, "ORDER_CHANGED"))
            }
        },
    }
}

/// What a mutation checks of the sources it reads: a document of an
/// archived project cannot change (`409 PROJECT_ARCHIVED`), and a patch
/// must name the version it replaces (`412 VERSION_CONFLICT`).
pub fn check_sources(kind: DocKind, project_archived: bool, create: bool, expected: Option<&str>, version: &str) -> (res: Result<(), AppError>)
    ensures
        !(kind is Project) && project_archived ==> (res matches Err(e) && is_rejection(e, 409, "PROJECT_ARCHIVED"@)),
        !(!(kind is Project) && project_archived) && !create && !(expected matches Some(x) && x@ == version@) ==> (res matches Err(e)
            && is_rejection(e, 412, "VERSION_CONFLICT"@)),
        !(!(kind is Project) && project_archived) && (create || (expected matches Some(x) && x@ == version@)) ==> res is Ok,
{
    let is_project = match kind {
        DocKind::Project => true,
        _ => false,
    };
    if !is_project && project_archived {
        return Err(AppError::reject(409, "PROJECT_ARCHIVED"));
    }
    if !create {
        let same = match expected {
            Some(x) => text_eq(x, version),
            None => false,
        };
        if !same {
            return Err(AppError::reject(412, "VERSION_CONFLICT"));
        }
    }
    Ok(())
}

} // verus!
