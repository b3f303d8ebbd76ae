use project_application::command_state::CommandState;
use project_application::ids::{canonical_uuid, request_millis, uuid_spelling, valid_request_id};
use project_application::text::{bytes_less, parse_i64, text_eq, text_less, utf8_text};
use project_application::workflow_kind::WorkflowKind;

#[test]
fn command_states_round_trip() {
    for state in [CommandState::Prepared, CommandState::Committed, CommandState::Rejected, CommandState::NeedsReview, CommandState::Blocked] {
        assert_eq!(CommandState::parse(state.as_str()).ok(), Some(state));
    }
    assert_eq!(CommandState::NeedsReview.as_str(), "needs_review");
    assert!(CommandState::parse("done").is_err());
}

#[test]
fn workflow_kinds_round_trip() {
    for kind in [
        WorkflowKind::Registration,
        WorkflowKind::Normalize,
        WorkflowKind::Rebalance,
        WorkflowKind::Unregister,
        WorkflowKind::Relocate,
        WorkflowKind::IndexRebuild,
    ] {
        assert_eq!(WorkflowKind::parse(kind.as_str()).ok(), Some(kind));
    }
    assert_eq!(WorkflowKind::IndexRebuild.as_str(), "index_rebuild");
    assert!(WorkflowKind::parse("rename").is_err());
}

#[test]
fn integers_parse_as_std_does() {
    for text in ["0", "-1", "+7", "9223372036854775807", "-9223372036854775808", "", "-", "1x", "9223372036854775808", " 1"] {
        assert_eq!(parse_i64(text.as_bytes()), text.parse::<i64>().ok(), "{text}");
    }
}

#[test]
fn text_orders_by_bytes() {
    assert!(text_less("a", "b"));
    assert!(text_less("a", "ab"));
    assert!(!text_less("b", "a"));
    assert!(!text_less("a", "a"));
    assert!(text_less("Z", "a"));
    assert!(bytes_less(&[1], &[1, 0]));
    assert!(text_eq("é", "é"));
    assert!(!text_eq("e", "é"));
    assert_eq!(utf8_text(&[0xc3, 0xa9]).as_deref(), Some("é"));
    assert_eq!(utf8_text(&[0xc3]), None);
}

#[test]
fn uuids_are_canonical_by_version_and_spelling() {
    let v4 = uuid::Uuid::new_v4().to_string();
    let v7 = uuid::Uuid::now_v7().to_string();
    assert!(canonical_uuid(&v4, 4));
    assert!(!canonical_uuid(&v4, 7));
    assert!(!canonical_uuid(&v4.to_uppercase(), 4));
    assert!(!canonical_uuid(&v4.replace('-', ""), 4));
    assert!(valid_request_id(&v7));
    assert!(!valid_request_id(&v4));
    let other_variant = "6ba7b810-9dad-41d1-00b4-00c04fd430c8";
    assert!(uuid_spelling(other_variant, 4));
    assert!(!canonical_uuid(other_variant, 4));
    assert_eq!(request_millis("01890a5d-ac96-774b-bcce-b302099a8057"), 1_688_096_058_518);
}
