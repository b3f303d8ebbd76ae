//! Physical card deletion: what a deletion request must satisfy, which
//! cards block it by depending on the card, and the limits of reading a
//! project's card set.
use crate::ids::{uuid_spelling, uuid_spelling_spec};
use crate::reply::{is_rejection, AppError, Reply};
use crate::registry::{focus_view, FocusRef};
use crate::tags::md_stem;
use crate::text::text_eq;
use crate::writer::is_error_reply;
use vstd::prelude::*;

verus! {

/// Most blockers one refusal lists.
pub const MAX_BLOCKERS: usize = 100;

/// Most bytes of card files that a card set reads.
pub const MAX_CARD_BYTES: usize = 67_108_864;

/// What a deletion request is checked for before any source is read: an
/// empty payload (`422 VALIDATION_FAILED`) and a named version (`428
/// PRECONDITION_REQUIRED`).
pub fn check_request(payload_empty: bool, has_expected: bool, request_id: &str) -> (res: Option<Reply>)
    ensures
        !payload_empty ==> (res matches Some(r) && is_error_reply(r, 422, "VALIDATION_FAILED"@, request_id@)),
        payload_empty && !has_expected ==> (res matches Some(r) && is_error_reply(r, 428, "PRECONDITION_REQUIRED"@, request_id@)),
        payload_empty && has_expected ==> res is None,
{
    if !payload_empty {
        Some(Reply::error(422, "VALIDATION_FAILED", request_id))
    } else if !has_expected {
        Some(Reply::error(428, "PRECONDITION_REQUIRED", request_id))
    } else {
        None
    }
}

/// Whether the workspace focus holds this card.
pub open spec fn in_focus(focus: Seq<(Seq<char>, Seq<char>)>, project: Seq<char>, card: Seq<char>) -> bool {
    exists|i: int| 0 <= i < focus.len() && (#[trigger] focus[i]) == (project, card)
}

pub fn focus_holds(focus: &Vec<FocusRef>, project: &str, card: &str) -> (res: bool)
    ensures
        res == in_focus(focus@.map_values(|f: FocusRef| focus_view(f)), project@, card@),
{
    let ghost v = focus@.map_values(|f: FocusRef| focus_view(f));
    let mut i: usize = 0;
    while i < focus.len()
        invariant
            i <= focus.len(),
            v == focus@.map_values(|f: FocusRef| focus_view(f)),
            forall|j: int| 0 <= j < i ==> (#[trigger] v[j]) != (project@, card@),
        decreases focus.len() - i,
    {
        if text_eq(focus[i].project_id.as_str(), project) && text_eq(focus[i].card_id.as_str(), card) {
            assert(v[i as int] == (project@, card@));
            return true;
        }
        i = i + 1;
    }
    false
}

/// A card in focus cannot be deleted (`409 CARD_IN_FOCUS`), nor a card of
/// an archived project (`409 PROJECT_ARCHIVED`).
pub fn check_target(focused: bool, project_archived: bool, request_id: &str) -> (res: Option<Reply>)
    ensures
        focused ==> (res matches Some(r) && is_error_reply(r, 409, "CARD_IN_FOCUS"@, request_id@)),
        !focused && project_archived ==> (res matches Some(r) && is_error_reply(r, 409, "PROJECT_ARCHIVED"@, request_id@)),
        !focused && !project_archived ==> res is None,
{
    if focused {
        Some(Reply::error(409, "CARD_IN_FOCUS", request_id))
    } else if project_archived {
        Some(Reply::error(409, "PROJECT_ARCHIVED", request_id))
    } else {
        None
    }
}

/// A card of the project, by what the guard reads of it: its ID and the
/// IDs it depends on.
pub struct CardEdges {
    pub id: String,
    pub depends_on: Vec<String>,
}

pub open spec fn edges_view(c: CardEdges) -> (Seq<char>, Seq<Seq<char>>) {
    (c.id@, c.depends_on@.map_values(|s: String| s@))
}

/// Whether a card other than `target` depends on it.
pub open spec fn blocks(c: (Seq<char>, Seq<Seq<char>>), target: Seq<char>) -> bool {
    c.0 != target && c.1.contains(target)
}

/// The positions of the cards that block deleting `target`, in order, at
/// most 100 of them.
pub open spec fn blockers_spec(cards: Seq<(Seq<char>, Seq<Seq<char>>)>, target: Seq<char>) -> Seq<int>
    decreases cards.len(),
{
    if cards.len() == 0 {
        seq![]
    } else {
        let prev = blockers_spec(cards.drop_last(), target);
        if prev.len() < MAX_BLOCKERS && blocks(cards.last(), target) {
            prev.push(cards.len() - 1)
        } else {
            prev
        }
    }
}

proof fn lemma_blockers_bounded(cards: Seq<(Seq<char>, Seq<Seq<char>>)>, target: Seq<char>)
    ensures
        blockers_spec(cards, target).len() <= MAX_BLOCKERS,
        blockers_spec(cards, target).len() <= cards.len(),
    decreases cards.len(),
{
    if cards.len() > 0 {
        lemma_blockers_bounded(cards.drop_last(), target);
    }
}

fn depends_on(deps: &Vec<String>, target: &str) -> (res: bool)
    ensures
        res == deps@.map_values(|s: String| s@).contains(target@),
{
    let ghost v = deps@.map_values(|s: String| s@);
    let mut i: usize = 0;
    while i < deps.len()
        invariant
            i <= deps.len(),
            v == deps@.map_values(|s: String| s@),
            forall|j: int| 0 <= j < i ==> v[j] != target@,
        decreases deps.len() - i,
    {
        if text_eq(deps[i].as_str(), target) {
            assert(v[i as int] == target@);
            return true;
        }
        i = i + 1;
    }
    false
}

/// Finds the cards that block deleting `target`: those that depend on it,
/// in order, at most 100. The refusal is truncated when 100 are listed.
pub fn blockers(cards: &Vec<CardEdges>, target: &str) -> (res: Vec<usize>)
    ensures
        res@.map_values(|i: usize| i as int) == blockers_spec(cards@.map_values(|c: CardEdges| edges_view(c)), target@),
        res@.len() <= MAX_BLOCKERS,
{
    let ghost cv = cards@.map_values(|c: CardEdges| edges_view(c));
    let mut out: Vec<usize> = Vec::new();
    let mut i: usize = 0;
    while i < cards.len()
        invariant
            i <= cards.len(),
            cv == cards@.map_values(|c: CardEdges| edges_view(c)),
            out@.map_values(|k: usize| k as int) == blockers_spec(cv.take(i as int), target@),
            out@.len() <= MAX_BLOCKERS,
        decreases cards.len() - i,
    {
        let ghost t = cv.take(i + 1);
        assert(t.drop_last() =~= cv.take(i as int));
        assert(t.last() == edges_view(cards@[i as int]));
        if out.len() < MAX_BLOCKERS && !text_eq(cards[i].id.as_str(), target) && depends_on(&cards[i].depends_on, target) {
            let ghost before = out@.map_values(|k: usize| k as int);
            out.push(i);
            assert(out@.map_values(|k: usize| k as int) =~= before.push(i as int));
        }
        i = i + 1;
    }
    assert(cv.take(i as int) =~= cv);
    out
}

/// What reading one file of the card folder gives: nothing for a file that
/// is not Markdown, the card's ID, or `409 DOCUMENT_INVALID` for a name that
/// is not a canonical version 4 ID.
pub fn card_file_id(name: &str) -> (res: Option<Result<String, AppError>>)
    ensures
        match md_stem(name@) {
            None => res is None,
            Some(stem) => if uuid_spelling_spec(stem, 4) {
                res matches Some(Ok(id)) && id@ == stem
            } else {
                res matches Some(Err(e)) && is_rejection(e, 409, "DOCUMENT_INVALID"@)
            },
        },
{
    match crate::tags::markdown_stem(name) {
        None => None,
        Some(stem) => if uuid_spelling(stem, 4) {
            Some(Ok(stem.to_owned()))
        } else {
            Some(Err(AppError::reject(409, "DOCUMENT_INVALID")))
        },
    }
}

/// Adds one card file's size to the bytes read; past 64 MiB the card set is
/// `409 SOURCE_LIMIT`.
pub fn add_card_bytes(total: usize, size: usize) -> (res: Result<usize, AppError>)
    ensures
        total + size <= MAX_CARD_BYTES ==> res == Ok::<usize, AppError>((total + size) as usize),
        total + size > MAX_CARD_BYTES ==> (res matches Err(e) && is_rejection(e, 409, "SOURCE_LIMIT"@)),
{
    if size > MAX_CARD_BYTES || total > MAX_CARD_BYTES - size {
        Err(AppError::reject(409, "SOURCE_LIMIT"))
    } else {
        Ok(total + size)
    }
}

/// Whether recovery may finish a prepared write. Writes with bytes to put
/// back always may. A deletion may only when it is a card deletion whose
/// card is still out of focus and unreferenced; anything else stops for
/// review.
pub open spec fn recovery_allowed_spec(has_after: bool, is_card_delete: bool, focused: bool, blocked: bool) -> bool {
    has_after || (is_card_delete && !focused && !blocked)
}

pub fn recovery_allowed(has_after: bool, method: &str, kind: &str, focused: bool, blocked: bool) -> (res: bool)
    ensures
        res == recovery_allowed_spec(has_after, method@ == "DELETE"@ && kind@ == "card"@, focused, blocked),
{
    if has_after {
        return true;
    }
    if !text_eq(method, "DELETE") || !text_eq(kind, "card") {
        return false;
    }
    !focused && !blocked
}

} // verus!
