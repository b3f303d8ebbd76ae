//! Wall-clock readings and their RFC 3339 spelling.
use vstd::prelude::*;

verus! {

/// The earliest millisecond that chrono represents: the start of year
/// -262143.
pub const MIN_INSTANT: i64 = -8_334_601_315_200_000;

/// The latest millisecond that chrono represents: the end of year 262142.
pub const MAX_INSTANT: i64 = 8_210_266_876_799_999;

/// The RFC 3339 spelling, with milliseconds and `Z`, of a millisecond since
/// the Unix epoch, as chrono writes it.
pub uninterp spec fn rfc3339_millis(millis: int) -> Seq<char>;

/// Milliseconds since the Unix epoch, from the system clock:
/// `SystemTime::now` measured with `duration_since(UNIX_EPOCH)`. `None` when
/// the clock reads before 1970, which `duration_since` refuses, or so far
/// after it that the count does not fit an `i64`. The value depends on the
/// clock alone, so nothing more is claimed of it.
#[verifier::external_body]
pub fn now_millis() -> (res: Option<i64>) {
    match std::time::SystemTime::now().duration_since(std::time::UNIX_EPOCH) {
        Ok(elapsed) => i64::try_from(elapsed.as_millis()).ok(),
        Err(_) => None,
    }
}

/// `chrono::DateTime::from_timestamp_millis` followed by `to_rfc3339_opts`
/// with milliseconds and `Z`: the result is the spelling of `millis`. The
/// conversion succeeds for every millisecond in chrono's range, which
/// `requires` states.
#[verifier::external_body]
pub fn instant(millis: i64) -> (res: String)
    requires
        MIN_INSTANT <= millis <= MAX_INSTANT,
    ensures
        res@ == rfc3339_millis(millis as int),
{
    chrono::DateTime::from_timestamp_millis(millis)
        .expect("bounded timestamp")
        .to_rfc3339_opts(chrono::SecondsFormat::Millis, true)
}

} // verus!
