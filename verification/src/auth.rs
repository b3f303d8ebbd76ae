//! Pairing and session decisions. Storage stays with the caller; every rule
//! that admits, refuses or renews a credential is decided here.
use crate::clock::{instant, rfc3339_millis, MAX_INSTANT, MIN_INSTANT};
use crate::reply::{is_rejection, AppError};
use crate::text::{all_ascii, ascii_chars, ascii_string, text_eq, text_less, text_lt};
use vstd::prelude::*;
use vstd::string::StringSliceAdditionalSpecFns;

verus! {

/// Compares two CSRF secrets without an early exit on the first differing
/// byte. Secrets of different byte lengths never match.
pub fn csrf_matches(expected: &str, actual: &str) -> (res: bool)
    ensures
        res == (expected@ == actual@),
{
    let a = expected.as_bytes();
    let b = actual.as_bytes();
    proof {
        vstd::utf8::encode_utf8_decode_utf8(expected@);
        vstd::utf8::encode_utf8_decode_utf8(actual@);
    }
    if a.len() != b.len() {
        return false;
    }
    let mut difference: u8 = 0;
    let mut i: usize = 0;
    while i < a.len()
        invariant
            a@ == expected.spec_bytes(),
            b@ == actual.spec_bytes(),
            a.len() == b.len(),
            i <= a.len(),
            (difference == 0) <==> (forall|j: int| 0 <= j < i ==> a@[j] == b@[j]),
        decreases a.len() - i,
    {
        let x = a[i];
        let y = b[i];
        let d = difference;
        assert(((d | (x ^ y)) == 0u8) <==> (d == 0u8 && x == y)) by (bit_vector);
        difference = d | (x ^ y);
        i = i + 1;
    }
    proof {
        if difference == 0 {
            assert(a@ =~= b@);
        }
    }
    difference == 0
}

/// A day in milliseconds.
pub const DAY: i64 = 86_400_000;

/// The longest a session lives after its creation.
pub const SESSION_MAX_AGE: i64 = 7_776_000_000;

/// How long a session lives after it was last seen.
pub const SESSION_IDLE: i64 = 2_592_000_000;

/// How long a pairing stays open.
pub const PAIRING_LIFETIME: i64 = 300_000;

/// How long a claimed pairing may be claimed again by a retry.
pub const CLAIM_GRACE: i64 = 60_000;

/// Most live sessions.
pub const MAX_SESSIONS: i64 = 100;

pub open spec fn hex_lower_digit(n: u8) -> u8 {
    if n < 10 { (48 + n) as u8 } else { (87 + n) as u8 }
}

/// Each byte as two lowercase hexadecimal digits, as `format!("{byte:02x}")`
/// writes it.
pub open spec fn hex_bytes(b: Seq<u8>) -> Seq<u8>
    decreases b.len(),
{
    if b.len() == 0 {
        seq![]
    } else {
        hex_bytes(b.drop_last()) + seq![hex_lower_digit(b.last() / 16), hex_lower_digit(b.last() % 16)]
    }
}

proof fn lemma_hex_bytes_shape(b: Seq<u8>)
    ensures
        hex_bytes(b).len() == 2 * b.len(),
        all_ascii(hex_bytes(b)),
        forall|i: int| 0 <= i < hex_bytes(b).len() ==> is_hex_lower(#[trigger] hex_bytes(b)[i]),
    decreases b.len(),
{
    if b.len() > 0 {
        lemma_hex_bytes_shape(b.drop_last());
        let p = hex_bytes(b.drop_last());
        let q = seq![hex_lower_digit(b.last() / 16), hex_lower_digit(b.last() % 16)];
        assert forall|i: int| 0 <= i < (p + q).len() implies (#[trigger] (p + q)[i]) < 128 && is_hex_lower((p + q)[i]) by {
            if i < p.len() {
                assert((p + q)[i] == p[i]);
            } else {
                assert((p + q)[i] == q[i - p.len()]);
            }
        }
    }
}

/// A lowercase hexadecimal digit.
pub open spec fn is_hex_lower(c: u8) -> bool {
    (48 <= c <= 57) || (97 <= c <= 102)
}

/// Spells bytes in lowercase hexadecimal.
pub fn hex_lower(bytes: &[u8]) -> (res: String)
    ensures
        res@ == ascii_chars(hex_bytes(bytes@)),
{
    let mut out: Vec<u8> = Vec::new();
    let mut i: usize = 0;
    while i < bytes.len()
        invariant
            i <= bytes.len(),
            out@ == hex_bytes(bytes@.take(i as int)),
        decreases bytes.len() - i,
    {
        let b = bytes[i];
        let hi: u8 = b / 16;
        let lo: u8 = b % 16;
        let h: u8 = if hi < 10 { 48 + hi } else { 87 + hi };
        let l: u8 = if lo < 10 { 48 + lo } else { 87 + lo };
        assert(bytes@.take(i + 1).drop_last() =~= bytes@.take(i as int));
        let ghost before = out@;
        out.push(h);
        out.push(l);
        assert(out@ =~= before + seq![h, l]);
        i = i + 1;
    }
    assert(bytes@.take(i as int) =~= bytes@);
    proof {
        lemma_hex_bytes_shape(bytes@);
    }
    ascii_string(out.as_slice())
}

/// `getrandom::fill` on 32 bytes: `None` when the system's source of
/// randomness fails. What the bytes are is left open: they come from the
/// operating system.
#[verifier::external_body]
pub(crate) fn random_bytes() -> (res: Option<[u8; 32]>) {
    let mut bytes = [0u8; 32];
    match getrandom::fill(&mut bytes) {
        Ok(()) => Some(bytes),
        Err(_) => None,
    }
}

/// A fresh secret: 32 random bytes in lowercase hexadecimal, 64 digits.
/// When the system cannot supply randomness no secret is made.
pub fn secret() -> (res: Result<String, AppError>)
    ensures
        res matches Ok(s) ==> s@.len() == 64 && forall|i: int| 0 <= i < 64 ==> is_hex_lower(#[trigger] s@[i] as u8),
        res matches Err(e) ==> e matches AppError::Unavailable(c) && c@ == "system randomness"@,
{
    match random_bytes() {
        Some(bytes) => {
            let s = hex_lower(&bytes);
            proof {
                lemma_hex_bytes_shape(bytes@);
                assert forall|i: int| 0 <= i < 64 implies is_hex_lower(#[trigger] s@[i] as u8) by {
                    let c: u8 = hex_bytes(bytes@)[i];
                    assert(s@[i] == c as char);
                    assert((c as char) as u8 == c);
                }
            }
            Ok(s)
        },
        None => Err(AppError::Unavailable("system randomness".to_owned())),
    }
}

/// The challenge shown on both devices: the first twelve characters of a
/// secret in three groups of four.
pub open spec fn challenge_spec(random: Seq<char>) -> Seq<char> {
    random.subrange(0, 4) + seq![' '] + random.subrange(4, 8) + seq![' '] + random.subrange(8, 12)
}

pub fn challenge(random: &str) -> (res: String)
    requires
        random@.len() >= 12,
    ensures
        res@ == challenge_spec(random@),
{
    proof {
        reveal_strlit(" ");
    }
    let mut out = random.substring_char(0, 4).to_owned();
    out.append(" ");
    out.append(random.substring_char(4, 8));
    out.append(" ");
    out.append(random.substring_char(8, 12));
    out
}

/// Opening pairings is rate limited: at most ten open at once and five
/// started within the pairing lifetime; more is `429 PAIRING_RATE_LIMIT`.
pub fn check_pairing_rate(active: i64, recent: i64) -> (res: Result<(), AppError>)
    ensures
        (active >= 10 || recent >= 5) ==> (res matches Err(e) && is_rejection(e, 429, "PAIRING_RATE_LIMIT"@)),
        !(active >= 10 || recent >= 5) ==> res is Ok,
{
    if active >= 10 || recent >= 5 {
        Err(AppError::reject(429, "PAIRING_RATE_LIMIT"))
    } else {
        Ok(())
    }
}

/// The state a pairing is shown in at `now`: an unclaimed pairing past its
/// expiry reads as expired.
pub open spec fn pairing_state_spec(state: Seq<char>, expires_at: Seq<char>, now: int) -> Seq<char> {
    if !text_lt(rfc3339_millis(now), expires_at) && state != "claimed"@ {
        "expired"@
    } else {
        state
    }
}

/// A pairing reads as expired from its expiry on, whatever its state,
/// unless the device claimed it; a claimed pairing always reads as claimed,
/// and any pairing before its expiry reads as its stored state.
pub proof fn lemma_unclaimed_pairings_expire(state: Seq<char>, expires_at: Seq<char>, now: int)
    ensures
        state != "claimed"@ && !text_lt(rfc3339_millis(now), expires_at) ==> pairing_state_spec(state, expires_at, now) == "expired"@,
        state == "claimed"@ ==> pairing_state_spec(state, expires_at, now) == "claimed"@,
        text_lt(rfc3339_millis(now), expires_at) ==> pairing_state_spec(state, expires_at, now) == state,
{
}

pub fn pairing_state(state: &str, expires_at: &str, now: i64) -> (res: String)
    requires
        MIN_INSTANT <= now <= MAX_INSTANT,
    ensures
        res@ == pairing_state_spec(state@, expires_at@, now as int),
        state@ == "claimed"@ ==> res@ == "claimed"@,
        state@ != "claimed"@ && !text_lt(rfc3339_millis(now as int), expires_at@) ==> res@ == "expired"@,
        text_lt(rfc3339_millis(now as int), expires_at@) ==> res@ == state@,
{
    let current = instant(now);
    if !text_less(current.as_str(), expires_at) && !text_eq(state, "claimed") {
        "expired".to_owned()
    } else {
        state.to_owned()
    }
}

/// The state an owner's decision gives a pairing. A pairing that expired
/// or is neither pending nor approved is `409 PAIRING_NOT_PENDING`; an
/// approval with another challenge is `409 CHALLENGE_MISMATCH`.
pub open spec fn decision_spec(state: Seq<char>, expires_at: Seq<char>, challenge: Seq<char>, given: Seq<char>, approve: bool, now: int) -> Result<Seq<char>, Seq<char>> {
    if !text_lt(rfc3339_millis(now), expires_at) || !(state == "pending"@ || state == "approved"@) {
        Err("PAIRING_NOT_PENDING"@)
    } else if approve && challenge != given {
        Err("CHALLENGE_MISMATCH"@)
    } else if approve {
        Ok("approved"@)
    } else {
        Ok("denied"@)
    }
}

/// An owner decides only on a live pairing that is pending or approved: an
/// expired one, or one in any other state, is not pending. Approving takes
/// the pairing's own challenge and makes it approved; denying makes it
/// denied.
pub proof fn lemma_decision(state: Seq<char>, expires_at: Seq<char>, challenge: Seq<char>, given: Seq<char>, approve: bool, now: int)
    ensures
        !text_lt(rfc3339_millis(now), expires_at) ==> decision_spec(state, expires_at, challenge, given, approve, now) == Err::<Seq<char>, Seq<char>>("PAIRING_NOT_PENDING"@),
        !(state == "pending"@ || state == "approved"@) ==> decision_spec(state, expires_at, challenge, given, approve, now) == Err::<Seq<char>, Seq<char>>("PAIRING_NOT_PENDING"@),
        decision_spec(state, expires_at, challenge, given, approve, now) is Ok ==> text_lt(rfc3339_millis(now), expires_at)
            && (state == "pending"@ || state == "approved"@),
        text_lt(rfc3339_millis(now), expires_at) && (state == "pending"@ || state == "approved"@) ==> {
            &&& approve && challenge != given ==> decision_spec(state, expires_at, challenge, given, approve, now) == Err::<Seq<char>, Seq<char>>("CHALLENGE_MISMATCH"@)
            &&& approve && challenge == given ==> decision_spec(state, expires_at, challenge, given, approve, now) == Ok::<Seq<char>, Seq<char>>("approved"@)
            &&& !approve ==> decision_spec(state, expires_at, challenge, given, approve, now) == Ok::<Seq<char>, Seq<char>>("denied"@)
        },
{
}

pub fn decide(state: &str, expires_at: &str, challenge: &str, given: &str, approve: bool, now: i64) -> (res: Result<&'static str, AppError>)
    requires
        MIN_INSTANT <= now <= MAX_INSTANT,
    ensures
        match decision_spec(state@, expires_at@, challenge@, given@, approve, now as int) {
            Ok(s) => res matches Ok(r) && r@ == s,
            Err(code) => res matches Err(e) && is_rejection(e, 409, code),
        },
{
    let current = instant(now);
    if !text_less(current.as_str(), expires_at) || !(text_eq(state, "pending") || text_eq(state, "approved")) {
        return Err(AppError::reject(409, "PAIRING_NOT_PENDING"));
    }
    if approve && !csrf_matches(challenge, given) {
        return Err(AppError::reject(409, "CHALLENGE_MISMATCH"));
    }
    if approve {
        Ok("approved")
    } else {
        Ok("denied")
    }
}

/// How a pending device's claim is admitted.
pub struct ClaimAdmission {
    /// A retry of a claim within its grace period.
    pub retry: bool,
}

/// A claim must carry the pairing's CSRF secret (`403 CSRF_MISMATCH`) and
/// find it approved and unexpired, unless it retries a claim within the
/// grace period (`409 PAIRING_NOT_APPROVED`); it may not exceed the live
/// session limit (`409 SESSION_LIMIT_REACHED`).
pub open spec fn claim_spec(
    csrf: Seq<char>,
    given: Seq<char>,
    state: Seq<char>,
    expires_at: Seq<char>,
    grace_until: Option<Seq<char>>,
    active_sessions: int,
    now: int,
) -> Result<bool, (u16, Seq<char>)> {
    let current = rfc3339_millis(now);
    let retry = state == "claimed"@ && (grace_until matches Some(g) && text_lt(current, g));
    if csrf != given {
        Err((403u16, "CSRF_MISMATCH"@))
    } else if !retry && (state != "approved"@ || !text_lt(current, expires_at)) {
        Err((409u16, "PAIRING_NOT_APPROVED"@))
    } else if active_sessions >= MAX_SESSIONS {
        Err((409u16, "SESSION_LIMIT_REACHED"@))
    } else {
        Ok(retry)
    }
}

/// A claim succeeds only with the pairing's CSRF secret and under the
/// session limit, and only on an approved pairing before its expiry or as a
/// retry of a claim within its grace period; whether it is such a retry is
/// what it reports.
pub proof fn lemma_claim(
    csrf: Seq<char>,
    given: Seq<char>,
    state: Seq<char>,
    expires_at: Seq<char>,
    grace_until: Option<Seq<char>>,
    active_sessions: int,
    now: int,
)
    ensures
        csrf != given ==> claim_spec(csrf, given, state, expires_at, grace_until, active_sessions, now) == Err::<bool, (u16, Seq<char>)>((403u16, "CSRF_MISMATCH"@)),
        claim_spec(csrf, given, state, expires_at, grace_until, active_sessions, now) matches Ok(retry) ==> {
            &&& csrf == given
            &&& active_sessions < MAX_SESSIONS
            &&& retry == (state == "claimed"@ && (grace_until matches Some(g) && text_lt(rfc3339_millis(now), g)))
            &&& !retry ==> state == "approved"@ && text_lt(rfc3339_millis(now), expires_at)
        },
        csrf == given && state == "approved"@ && text_lt(rfc3339_millis(now), expires_at) && active_sessions < MAX_SESSIONS
            ==> claim_spec(csrf, given, state, expires_at, grace_until, active_sessions, now) == Ok::<bool, (u16, Seq<char>)>(false),
        csrf == given && state != "claimed"@ && !(state == "approved"@ && text_lt(rfc3339_millis(now), expires_at))
            ==> claim_spec(csrf, given, state, expires_at, grace_until, active_sessions, now) == Err::<bool, (u16, Seq<char>)>((409u16, "PAIRING_NOT_APPROVED"@)),
{
    reveal_strlit("approved");
    reveal_strlit("claimed");
    assert("approved"@[0] != "claimed"@[0]);
}

pub fn admit_claim(
    csrf: &str,
    given: &str,
    state: &str,
    expires_at: &str,
    grace_until: Option<&str>,
    active_sessions: i64,
    now: i64,
) -> (res: Result<ClaimAdmission, AppError>)
    requires
        MIN_INSTANT <= now <= MAX_INSTANT,
    ensures
        match claim_spec(csrf@, given@, state@, expires_at@, match grace_until {
            Some(g) => Some(g@),
            None => None,
        }, active_sessions as int, now as int) {
            Ok(retry) => res matches Ok(a) && a.retry == retry,
            Err((status, code)) => res matches Err(e) && is_rejection(e, status, code),
        },
{
    if !csrf_matches(csrf, given) {
        return Err(AppError::reject(403, "CSRF_MISMATCH"));
    }
    let current = instant(now);
    let retry = text_eq(state, "claimed") && match grace_until {
        Some(g) => text_less(current.as_str(), g),
        None => false,
    };
    if !retry && (!text_eq(state, "approved") || !text_less(current.as_str(), expires_at)) {
        return Err(AppError::reject(409, "PAIRING_NOT_APPROVED"));
    }
    if active_sessions >= MAX_SESSIONS {
        return Err(AppError::reject(409, "SESSION_LIMIT_REACHED"));
    }
    Ok(ClaimAdmission { retry })
}

/// The milliseconds that an RFC 3339 timestamp names, as chrono parses it.
pub uninterp spec fn rfc3339_parse(text: Seq<char>) -> Option<int>;

/// `chrono::DateTime::parse_from_rfc3339` followed by `timestamp_millis`:
/// `None` for text chrono does not accept, otherwise the parsed instant's
/// milliseconds since the Unix epoch, which lie in chrono's range as every
/// `DateTime` does.
#[verifier::external_body]
fn parse_instant(text: &str) -> (res: Option<i64>)
    ensures
        match res {
            Some(v) => rfc3339_parse(text@) == Some(v as int) && MIN_INSTANT <= v <= MAX_INSTANT,
            None => rfc3339_parse(text@) is None,
        },
{
    chrono::DateTime::parse_from_rfc3339(text).ok().map(|t| t.timestamp_millis())
}

/// How a valid session token is answered at `now`.
pub enum SessionCheck {
    /// Accept without touching the stored times.
    Keep,
    /// Accept, and record `now` as last seen with the new expiry.
    Renew { expires_at: i64 },
}

/// Session lifetimes: a session dies 90 days after its creation whatever
/// its use (`401 SESSION_EXPIRED`); it is renewed when last seen a minute
/// or more ago, then expiring 30 days later but never past its 90 days.
pub open spec fn session_spec(created: int, last: int, now: int) -> Option<Option<int>> {
    if now >= created + SESSION_MAX_AGE {
        None
    } else if now - last >= 60_000 {
        Some(Some(if now + SESSION_IDLE <= created + SESSION_MAX_AGE { now + SESSION_IDLE } else { created + SESSION_MAX_AGE }))
    } else {
        Some(None)
    }
}

/// A session never outlives its 90 days: past them it is refused; a
/// renewal expires after `now` and no later than both 30 days from `now`
/// and 90 days from creation; a session is renewed exactly when it was last
/// seen a minute or more ago.
pub proof fn lemma_session_lifetime(created: int, last: int, now: int)
    ensures
        now >= created + SESSION_MAX_AGE ==> session_spec(created, last, now) is None,
        now < created + SESSION_MAX_AGE ==> session_spec(created, last, now) is Some,
        session_spec(created, last, now) matches Some(Some(x)) ==> now < x && x <= now + SESSION_IDLE && x <= created + SESSION_MAX_AGE
            && (x == now + SESSION_IDLE || x == created + SESSION_MAX_AGE),
        now < created + SESSION_MAX_AGE ==> (session_spec(created, last, now) matches Some(Some(_)) <==> now - last >= 60_000),
{
}

/// Checks a session whose token matched, from its stored creation and
/// last-seen times. Stored times that do not parse are stored-data errors.
pub fn check_session(created: &str, last_seen: &str, now: i64) -> (res: Result<SessionCheck, AppError>)
    requires
        MIN_INSTANT <= now <= MAX_INSTANT,
    ensures
        match rfc3339_parse(created@) {
            None => res matches Err(e) && e matches AppError::StoredData { context: t } && t@ == "session timestamp"@,
            Some(c) => if now >= c + SESSION_MAX_AGE {
                res matches Err(e) && is_rejection(e, 401, "SESSION_EXPIRED"@)
            } else {
                match rfc3339_parse(last_seen@) {
                    None => res matches Err(e) && e matches AppError::StoredData { context: t } && t@ == "session timestamp"@,
                    Some(l) => match session_spec(c, l, now as int) {
                        None => false,
                        Some(None) => res matches Ok(SessionCheck::Keep),
                        Some(Some(x)) => res matches Ok(SessionCheck::Renew { expires_at }) && expires_at == x,
                    },
                }
            },
        },
{
    let c = match parse_instant(created) {
        Some(v) => v,
        None => return Err(AppError::stored("session timestamp")),
    };
    if now >= c + SESSION_MAX_AGE {
        return Err(AppError::reject(401, "SESSION_EXPIRED"));
    }
    let l = match parse_instant(last_seen) {
        Some(v) => v,
        None => return Err(AppError::stored("session timestamp")),
    };
    if now - l >= 60_000 {
        let renewed = now + SESSION_IDLE;
        let limit = c + SESSION_MAX_AGE;
        Ok(SessionCheck::Renew { expires_at: if renewed <= limit { renewed } else { limit } })
    } else {
        Ok(SessionCheck::Keep)
    }
}

/// Session and pairing tokens are 64 bytes; anything else is refused
/// before any lookup with the code the caller names.
pub fn check_token(token: &str, status: u16, code: &str) -> (res: Result<(), AppError>)
    ensures
        token.spec_bytes().len() == 64 ==> res is Ok,
        token.spec_bytes().len() != 64 ==> (res matches Err(e) && is_rejection(e, status, code@)),
{
    if token.as_bytes().len() != 64 {
        Err(AppError::reject(status, code))
    } else {
        Ok(())
    }
}

/// The SHA-256 digest of some bytes.
pub uninterp spec fn sha256(bytes: Seq<u8>) -> Seq<u8>;

/// `sha2::Sha256::digest`: the digest of the bytes, 32 bytes long.
#[verifier::external_body]
fn sha256_digest(bytes: &[u8]) -> (res: Vec<u8>)
    ensures
        res@ == sha256(bytes@),
        res@.len() == 32,
{
    <sha2::Sha256 as sha2::Digest>::digest(bytes).to_vec()
}

/// The stored lookup key of a credential token: the digest of its bytes,
/// after the length check that every token passes first.
pub fn token_key(token: &str, status: u16, code: &str) -> (res: Result<Vec<u8>, AppError>)
    ensures
        token.spec_bytes().len() == 64 ==> (res matches Ok(k) && k@ == sha256(token.spec_bytes())),
        token.spec_bytes().len() != 64 ==> (res matches Err(e) && is_rejection(e, status, code@)),
{
    match check_token(token, status, code) {
        Ok(()) => Ok(sha256_digest(token.as_bytes())),
        Err(e) => Err(e),
    }
}

} // verus!
