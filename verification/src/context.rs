//! Budgeted project context for a caller: the budget it may ask for, how a
//! document's body is cut to an excerpt, and how many entries each list
//! takes.
use crate::reply::{is_rejection, AppError};
use crate::text::text_eq;
use vstd::prelude::*;
use vstd::string::StringSliceAdditionalSpecFns;
use vstd::utf8::{encode_utf8, encode_utf8_valid_utf8, is_char_boundary};

verus! {

/// The smallest and largest context budgets, in bytes.
pub const MIN_BUDGET: usize = 4096;
pub const MAX_BUDGET: usize = 131_072;

/// A budget outside 4 KiB to 128 KiB is `400 INVALID_CONTEXT_BUDGET`.
pub fn check_budget(max_bytes: usize) -> (res: Result<(), AppError>)
    ensures
        MIN_BUDGET <= max_bytes <= MAX_BUDGET ==> res is Ok,
        !(MIN_BUDGET <= max_bytes <= MAX_BUDGET) ==> (res matches Err(e) && is_rejection(e, 400, "INVALID_CONTEXT_BUDGET"@)),
{
    if max_bytes < MIN_BUDGET || max_bytes > MAX_BUDGET {
        Err(AppError::reject(400, "INVALID_CONTEXT_BUDGET"))
    } else {
        Ok(())
    }
}

/// Where an excerpt of at most `max` bytes ends: the last character
/// boundary at or before `max`, so no character is split.
pub open spec fn excerpt_end(bytes: Seq<u8>, max: int) -> int {
    let limit = if max < bytes.len() { max } else { bytes.len() as int };
    choose|e: int| 0 <= e <= limit && is_char_boundary(bytes, e) && forall|f: int| e < f <= limit ==> !is_char_boundary(bytes, f)
}

/// The excerpt of a body: its first bytes, at most `max`, cut at a
/// character boundary, and whether anything was cut off.
pub fn excerpt(body: &str, max: usize) -> (res: (&str, bool))
    ensures
        ({
            let end = excerpt_end(body.spec_bytes(), max as int);
            &&& res.0.spec_bytes() == body.spec_bytes().subrange(0, end)
            &&& res.1 == (end < body.spec_bytes().len())
        }),
{
    proof {
        encode_utf8_valid_utf8(body@);
    }
    let len = body.as_bytes().len();
    let limit = if max < len { max } else { len };
    let mut end = limit;
    while !body.is_char_boundary(end)
        invariant
            end <= limit,
            limit <= body.spec_bytes().len(),
            limit as int == (if max < body.spec_bytes().len() { max as int } else { body.spec_bytes().len() as int }),
            vstd::utf8::valid_utf8(body.spec_bytes()),
            forall|f: int| end < f <= limit ==> !is_char_boundary(body.spec_bytes(), f),
        decreases end,
    {
        assert(end != 0) by {
            assert(is_char_boundary(body.spec_bytes(), 0));
        }
        end = end - 1;
    }
    proof {
        let bytes = body.spec_bytes();
        assert(0 <= end <= limit && is_char_boundary(bytes, end as int) && forall|f: int| end < f <= limit ==> !is_char_boundary(bytes, f));
        let c = excerpt_end(bytes, max as int);
        if c != end {
            if c < end {
                assert(!is_char_boundary(bytes, end as int));
            } else {
                assert(!is_char_boundary(bytes, c));
            }
        }
    }
    let (head, _) = body.split_at(end);
    (head, end < len)
}

/// How many entries a list of the context takes: a hundred warnings, two
/// hundred of anything else.
pub fn list_capacity(field: &str) -> (res: usize)
    ensures
        res == (if field@ == "warnings"@ { 100usize } else { 200usize }),
{
    if text_eq(field, "warnings") {
        100
    } else {
        200
    }
}

/// The bytes the listed entries may take: the budget less 512 bytes kept
/// for the envelope.
pub fn entry_budget(max_bytes: usize) -> (res: usize)
    requires
        MIN_BUDGET <= max_bytes,
    ensures
        res == max_bytes - 512,
{
    max_bytes - 512
}

/// Focus references are added while the context takes at most half the
/// budget.
pub fn focus_room(encoded: usize, max_bytes: usize) -> (res: bool)
    ensures
        res == (encoded <= max_bytes / 2),
{
    encoded <= max_bytes / 2
}

/// Whether an entry may be appended to a list: the list has room, and the
/// context with the entry stays within the entry budget.
pub fn appended(field: &str, listed: usize, encoded_with_entry: usize, budget: usize) -> (res: bool)
    ensures
        res == (listed < (if field@ == "warnings"@ { 100usize } else { 200usize }) && encoded_with_entry <= budget),
{
    listed < list_capacity(field) && encoded_with_entry <= budget
}

/// How many entries of a kind the context includes and how many it leaves
/// out.
pub struct Counts {
    pub included: u64,
    pub omitted: u64,
}

impl Counts {
    /// One more entry included, so one fewer left out.
    pub fn with_one_more(&self) -> (res: Counts)
        requires
            self.included < u64::MAX,
        ensures
            res.included == self.included + 1,
            res.omitted == if self.omitted > 0 { self.omitted - 1 } else { 0 },
    {
        Counts { included: self.included + 1, omitted: self.omitted.saturating_sub(1) }
    }
}

/// A context is truncated when it leaves any entry out, or cuts the
/// project's or an entry's body.
pub fn context_truncated(counts: &Vec<Counts>, project_cut: bool, entry_cut: bool) -> (res: bool)
    ensures
        res == ((exists|i: int| 0 <= i < counts@.len() && (#[trigger] counts@[i]).omitted > 0) || project_cut || entry_cut),
{
    let mut i: usize = 0;
    while i < counts.len()
        invariant
            i <= counts@.len(),
            forall|j: int| 0 <= j < i ==> (#[trigger] counts@[j]).omitted == 0,
        decreases counts@.len() - i,
    {
        if counts[i].omitted > 0 {
            return true;
        }
        i = i + 1;
    }
    project_cut || entry_cut
}

/// The whole context must fit the budget: `422 CONTEXT_BUDGET_TOO_SMALL`.
pub fn check_fits(encoded: usize, max_bytes: usize) -> (res: Result<(), AppError>)
    ensures
        encoded <= max_bytes ==> res is Ok,
        encoded > max_bytes ==> (res matches Err(e) && is_rejection(e, 422, "CONTEXT_BUDGET_TOO_SMALL"@)),
{
    if encoded > max_bytes {
        Err(AppError::reject(422, "CONTEXT_BUDGET_TOO_SMALL"))
    } else {
        Ok(())
    }
}

/// The title an entry shows: `title`, else `name`, else `summary`, else
/// nothing.
pub fn entry_title<'a>(title: Option<&'a str>, name: Option<&'a str>, summary: Option<&'a str>) -> (res: &'a str)
    ensures
        res@ == (match title {
            Some(t) => t@,
            None => match name {
                Some(n) => n@,
                None => match summary {
                    Some(s) => s@,
                    None => Seq::<char>::empty(),
                },
            },
        }),
{
    proof {
        reveal_strlit("");
    }
    match title {
        Some(t) => t,
        None => match name {
            Some(n) => n,
            None => match summary {
                Some(s) => s,
                None => "",
            },
        },
    }
}

/// How long an entry's excerpt may be: 512 bytes for a report, 1024 for
/// anything else.
pub fn excerpt_limit(kind: &str) -> (res: usize)
    ensures
        res == (if kind@ == "update"@ { 512usize } else { 1024usize }),
{
    if text_eq(kind, "update") {
        512
    } else {
        1024
    }
}

} // verus!
