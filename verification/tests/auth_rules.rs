use project_application::auth::{
    admit_claim, challenge, check_pairing_rate, check_session, check_token, csrf_matches, decide, hex_lower,
    pairing_state, secret, token_key, SessionCheck,
};
use project_application::reply::{AppError, ReplyBody};

const NOW: i64 = 1_700_000_000_000;
const NOW_TEXT: &str = "2023-11-14T22:13:20.000Z";
const LATER: &str = "2023-11-14T22:18:20.000Z";
const EARLIER: &str = "2023-11-14T22:08:20.000Z";
const DAY: i64 = 86_400_000;

fn rejected(e: AppError) -> (u16, String) {
    match e {
        AppError::Rejected(r) => match r.body {
            ReplyBody::Error { code, .. } => (r.http_status, code),
            _ => panic!(),
        },
        _ => panic!("not a rejection"),
    }
}

#[test]
fn csrf_secrets_compare_exactly() {
    assert!(csrf_matches("abc", "abc"));
    assert!(!csrf_matches("abc", "abd"));
    assert!(!csrf_matches("abc", "abcd"));
    assert!(csrf_matches("", ""));
}

#[test]
fn secrets_are_sixty_four_lowercase_hex_digits() {
    assert_eq!(hex_lower(&[0x00, 0x0f, 0xab, 0xff]), "000fabff");
    let s = secret().ok().unwrap();
    assert_eq!(s.len(), 64);
    assert!(s.bytes().all(|b| b.is_ascii_digit() || (b'a'..=b'f').contains(&b)));
    assert_ne!(s, secret().ok().unwrap());
}

#[test]
fn challenges_group_twelve_characters() {
    assert_eq!(challenge("0123456789abcdef"), "0123 4567 89ab");
}

#[test]
fn pairing_starts_are_rate_limited() {
    assert!(check_pairing_rate(9, 4).is_ok());
    assert_eq!(rejected(check_pairing_rate(10, 0).err().unwrap()), (429, "PAIRING_RATE_LIMIT".into()));
    assert_eq!(rejected(check_pairing_rate(0, 5).err().unwrap()), (429, "PAIRING_RATE_LIMIT".into()));
}

#[test]
fn unclaimed_pairings_expire() {
    assert_eq!(pairing_state("pending", NOW_TEXT, NOW), "expired");
    assert_eq!(pairing_state("pending", LATER, NOW), "pending");
    assert_eq!(pairing_state("claimed", EARLIER, NOW), "claimed");
}

#[test]
fn owners_decide_open_pairings_with_the_shown_challenge() {
    assert_eq!(decide("pending", LATER, "0123 4567 89ab", "0123 4567 89ab", true, NOW).ok(), Some("approved"));
    assert_eq!(decide("approved", LATER, "c", "other", false, NOW).ok(), Some("denied"));
    assert_eq!(rejected(decide("pending", LATER, "c", "other", true, NOW).err().unwrap()), (409, "CHALLENGE_MISMATCH".into()));
    assert_eq!(rejected(decide("pending", NOW_TEXT, "c", "c", true, NOW).err().unwrap()), (409, "PAIRING_NOT_PENDING".into()));
    assert_eq!(rejected(decide("denied", LATER, "c", "c", true, NOW).err().unwrap()), (409, "PAIRING_NOT_PENDING".into()));
}

#[test]
fn claims_need_approval_or_a_retry_in_grace() {
    assert_eq!(admit_claim("s", "s", "approved", LATER, None, 0, NOW).ok().map(|a| a.retry), Some(false));
    assert_eq!(admit_claim("s", "s", "claimed", EARLIER, Some(LATER), 0, NOW).ok().map(|a| a.retry), Some(true));
    assert_eq!(rejected(admit_claim("s", "t", "approved", LATER, None, 0, NOW).err().unwrap()), (403, "CSRF_MISMATCH".into()));
    assert_eq!(rejected(admit_claim("s", "s", "claimed", LATER, Some(EARLIER), 0, NOW).err().unwrap()), (409, "PAIRING_NOT_APPROVED".into()));
    assert_eq!(rejected(admit_claim("s", "s", "approved", EARLIER, None, 0, NOW).err().unwrap()), (409, "PAIRING_NOT_APPROVED".into()));
    assert_eq!(rejected(admit_claim("s", "s", "approved", LATER, None, 100, NOW).err().unwrap()), (409, "SESSION_LIMIT_REACHED".into()));
}

#[test]
fn sessions_renew_within_their_maximum_age() {
    assert!(matches!(check_session(NOW_TEXT, NOW_TEXT, NOW + 1_000), Ok(SessionCheck::Keep)));
    match check_session(NOW_TEXT, NOW_TEXT, NOW + 60_000) {
        Ok(SessionCheck::Renew { expires_at }) => assert_eq!(expires_at, NOW + 60_000 + 30 * DAY),
        _ => panic!(),
    }
    match check_session(NOW_TEXT, NOW_TEXT, NOW + 80 * DAY) {
        Ok(SessionCheck::Renew { expires_at }) => assert_eq!(expires_at, NOW + 90 * DAY),
        _ => panic!(),
    }
    assert_eq!(rejected(check_session(NOW_TEXT, NOW_TEXT, NOW + 90 * DAY).err().unwrap()), (401, "SESSION_EXPIRED".into()));
    assert!(matches!(check_session("yesterday", NOW_TEXT, NOW), Err(AppError::StoredData { .. })));
}

#[test]
fn tokens_are_checked_before_lookup() {
    let token = "a".repeat(64);
    assert!(check_token(&token, 401, "SESSION_REQUIRED").is_ok());
    assert_eq!(rejected(check_token("short", 401, "SESSION_REQUIRED").err().unwrap()), (401, "SESSION_REQUIRED".into()));
    let key = token_key(&token, 401, "PAIRING_COOKIE_REQUIRED").ok().unwrap();
    assert_eq!(key.len(), 32);
    assert_eq!(hex_lower(&key), "ffe054fe7ae0cb6dc65c3af9b61d5209f439851db43d0ba5997337df154668eb");
    assert!(token_key("x", 401, "PAIRING_COOKIE_REQUIRED").is_err());
}
