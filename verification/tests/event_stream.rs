use project_application::events::{cursor_sequence_of, Event, EventKind, EventLog, EventReason, MAX_EVENTS};

fn changed(sequence: i64) -> Event {
    Event {
        kind: EventKind::Changed,
        sequence,
        project_id: Some("p".into()),
        target: Some(("card".into(), "c".into())),
        version: Some("v".into()),
        reason: EventReason::SourceChanged,
        tags_changed: Some(false),
    }
}

#[test]
fn cursors_name_a_sequence_of_their_epoch() {
    assert_eq!(cursor_sequence_of(b"e1:42", b"e1"), Some(42));
    assert_eq!(cursor_sequence_of(b"a:b:7", b"a:b"), Some(7));
    assert_eq!(cursor_sequence_of(b"e2:42", b"e1"), None);
    assert_eq!(cursor_sequence_of(b"e1:x", b"e1"), None);
    assert_eq!(cursor_sequence_of(b"e1", b"e1"), None);
}

#[test]
fn resuming_replays_what_followed_the_cursor() {
    let mut log = EventLog::new("e1".into());
    log.record_all(1_000, vec![changed(1), changed(2), changed(3)]);
    let got = log.events_since("e1:1", 3, 1_000);
    assert_eq!(got.iter().map(|e| e.sequence).collect::<Vec<_>>(), vec![2, 3]);
    assert!(log.events_since("e1:3", 3, 1_000).is_empty());
}

#[test]
fn foreign_or_stale_cursors_resynchronise() {
    let mut log = EventLog::new("e1".into());
    log.record_all(1_000, vec![changed(5), changed(6)]);
    let other = log.events_since("e0:5", 6, 1_000);
    assert_eq!(other.len(), 1);
    assert_eq!(other[0].kind, EventKind::ResyncRequired);
    assert_eq!(other[0].reason, EventReason::StreamEpochChanged);
    let gap = log.events_since("e1:2", 6, 1_000);
    assert_eq!(gap.len(), 1);
    assert_eq!(gap[0].reason, EventReason::ReplayGap);
    let ahead = log.events_since("e1:9", 6, 1_000);
    assert_eq!(ahead[0].reason, EventReason::ReplayGap);
}

#[test]
fn old_events_leave_the_window() {
    let mut log = EventLog::new("e1".into());
    log.record(0, changed(1));
    log.record(600_001, changed(2));
    assert_eq!(log.len(), 1);
    let got = log.events_since("e1:1", 2, 600_001);
    assert_eq!(got.iter().map(|e| e.sequence).collect::<Vec<_>>(), vec![2]);
}

#[test]
fn the_log_keeps_at_most_its_capacity() {
    let mut log = EventLog::new("e1".into());
    let events: Vec<Event> = (1..=(MAX_EVENTS as i64 + 5)).map(changed).collect();
    log.record_all(10, events);
    assert_eq!(log.len(), MAX_EVENTS);
    assert_eq!(log.events_since("e1:5", MAX_EVENTS as i64 + 5, 10).first().map(|e| e.sequence), Some(6));
    assert_eq!(log.epoch(), "e1");
}

#[test]
fn events_are_spelled_as_the_stream_sends_them() {
    assert_eq!(EventKind::Changed.as_str(), "changed");
    assert_eq!(EventKind::HealthChanged.as_str(), "health_changed");
    assert_eq!(EventKind::ResyncRequired.as_str(), "resync_required");
    let reasons = [
        (EventReason::SourceChanged, "source_changed"),
        (EventReason::SourceRemoved, "source_removed"),
        (EventReason::DocumentInvalid, "document_invalid"),
        (EventReason::ProjectionIssuesChanged, "projection_issues_changed"),
        (EventReason::ProjectionReconciled, "projection_reconciled"),
        (EventReason::ProjectUnavailable, "project_unavailable"),
        (EventReason::WorkspaceChanged, "workspace_changed"),
        (EventReason::StreamEpochChanged, "stream_epoch_changed"),
        (EventReason::ReplayGap, "replay_gap"),
    ];
    for (reason, text) in reasons {
        assert_eq!(reason.as_str(), text);
    }
}
