//! Bounds shared by the board, calendar, gantt and folder views.
use crate::reply::{is_rejection, AppError};
use crate::text::text_eq;
use vstd::prelude::*;
use vstd::string::StringSliceAdditionalSpecFns;

verus! {

/// A view's page size must be positive and at most `max`; anything else is
/// `400 INVALID_LIMIT`.
pub fn bounded(limit: u32, max: u32) -> (res: Result<(), AppError>)
    ensures
        (limit == 0 || limit > max) ==> (res matches Err(e) && is_rejection(e, 400, "INVALID_LIMIT"@)),
        !(limit == 0 || limit > max) ==> res is Ok,
{
    if limit == 0 || limit > max {
        Err(AppError::reject(400, "INVALID_LIMIT"))
    } else {
        Ok(())
    }
}

/// The statuses of the board's columns, in order.
pub fn board_statuses() -> (res: Vec<&'static str>)
    ensures
        res@.len() == 5,
        res@[0]@ == "planned"@,
        res@[1]@ == "active"@,
        res@[2]@ == "review"@,
        res@[3]@ == "done"@,
        res@[4]@ == "cancelled"@,
{
    vec!["planned", "active", "review", "done", "cancelled"]
}

/// Page size bounds of each view.
pub const BOARD_LIMIT: u32 = 200;
pub const CALENDAR_LIMIT: u32 = 1000;
pub const GANTT_LIMIT: u32 = 500;
pub const LIST_LIMIT: u32 = 200;

/// A view cursor, once parsed, must name the page's scope (`409
/// PAGE_STALE`) and an offset that fits a signed 64-bit count (`400
/// INVALID_CURSOR`). Without a cursor a page starts at zero.
pub fn view_offset(cursor: Option<(bool, Option<u64>)>) -> (res: Result<u64, AppError>)
    ensures
        match cursor {
            None => res == Ok::<u64, AppError>(0),
            Some((scope_matches, offset)) => if !scope_matches {
                res matches Err(e) && is_rejection(e, 409, "PAGE_STALE"@)
            } else {
                match offset {
                    Some(n) if n <= i64::MAX => res == Ok::<u64, AppError>(n),
                    _ => res matches Err(e) && is_rejection(e, 400, "INVALID_CURSOR"@),
                }
            },
        },
{
    match cursor {
        None => Ok(0),
        Some((scope_matches, offset)) => {
            if !scope_matches {
                return Err(AppError::reject(409, "PAGE_STALE"));
            }
            match offset {
                Some(n) => if n <= 0x7fff_ffff_ffff_ffffu64 {
                    Ok(n)
                } else {
                    Err(AppError::reject(400, "INVALID_CURSOR"))
                },
                None => Err(AppError::reject(400, "INVALID_CURSOR")),
            }
        },
    }
}

/// A view cursor longer than 4096 bytes is refused before parsing.
pub fn view_cursor_length(cursor: &str) -> (res: Result<(), AppError>)
    ensures
        cursor.spec_bytes().len() <= 4096 ==> res is Ok,
        cursor.spec_bytes().len() > 4096 ==> (res matches Err(e) && is_rejection(e, 400, "INVALID_CURSOR"@)),
{
    if cursor.as_bytes().len() > 4096 {
        Err(AppError::reject(400, "INVALID_CURSOR"))
    } else {
        Ok(())
    }
}

/// Where each board column starts: the column a cursor selected continues
/// at its offset; the others start again.
pub fn column_start(status: &str, selected: &str, requested: u64) -> (res: u64)
    ensures
        res == (if status@ == selected@ { requested } else { 0 }),
{
    if text_eq(status, selected) {
        requested
    } else {
        0
    }
}

/// A calendar covers at most 400 days, from its first day to its last, by
/// day numbers: `400 INVALID_DATE_RANGE` otherwise.
pub fn check_date_range(first_day: i64, last_day: i64) -> (res: Result<(), AppError>)
    ensures
        (last_day < first_day || last_day - first_day >= 400) ==> (res matches Err(e) && is_rejection(e, 400, "INVALID_DATE_RANGE"@)),
        !(last_day < first_day || last_day - first_day >= 400) ==> res is Ok,
{
    if last_day < first_day || (last_day as i128) - (first_day as i128) >= 400 {
        Err(AppError::reject(400, "INVALID_DATE_RANGE"))
    } else {
        Ok(())
    }
}

/// The focus view has two sections: `400 INVALID_QUERY` for any other.
pub fn check_focus_section(section: &str) -> (res: Result<(), AppError>)
    ensures
        (section@ == "motion"@ || section@ == "events"@) ==> res is Ok,
        !(section@ == "motion"@ || section@ == "events"@) ==> (res matches Err(e) && is_rejection(e, 400, "INVALID_QUERY"@)),
{
    if text_eq(section, "motion") || text_eq(section, "events") {
        Ok(())
    } else {
        Err(AppError::reject(400, "INVALID_QUERY"))
    }
}

/// The offset after a page of `count` items that started at `start`.
pub fn next_offset(start: u64, count: usize, more: bool) -> (res: Option<u64>)
    requires
        start + count <= u64::MAX,
    ensures
        res == (if more { Some((start + count) as u64) } else { None::<u64> }),
{
    if more {
        Some(start + count as u64)
    } else {
        None
    }
}

/// An attention item's ID: `project:id:reason`.
pub fn attention_id(project: &str, id: &str, reason: &str) -> (res: String)
    ensures
        res@ == project@ + ":"@ + id@ + ":"@ + reason@,
{
    let mut out = project.to_owned();
    out.append(":");
    out.append(id);
    out.append(":");
    out.append(reason);
    out
}

/// What an attention item points at, as a type and an ID, and the report
/// it came from: a report points at its project until its own target is
/// read; any other document points at itself.
pub fn attention_target(project: &str, kind: &str, id: &str) -> (res: (String, String, Option<String>))
    ensures
        kind@ == "update"@ ==> res.0@ == "project"@ && res.1@ == project@ && (res.2 matches Some(r) && r@ == id@),
        kind@ != "update"@ ==> res.0@ == kind@ && res.1@ == id@ && res.2 is None,
{
    if text_eq(kind, "update") {
        ("project".to_owned(), project.to_owned(), Some(id.to_owned()))
    } else {
        (kind.to_owned(), id.to_owned(), None)
    }
}

/// A calendar item's ID: `id:kind`.
pub fn calendar_item_id(id: &str, kind: &str) -> (res: String)
    ensures
        res@ == id@ + ":"@ + kind@,
{
    let mut out = id.to_owned();
    out.append(":");
    out.append(kind);
    out
}

} // verus!
