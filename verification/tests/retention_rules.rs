use project_application::clock::instant;
use project_application::retention::{
    ended_pairings, ended_sessions, expired_commands, CommandAge, PairingAge, SessionAge, ENDED_KEPT, RETENTION_BATCH,
};

const NOW: i64 = 1_700_000_000_000;

fn command(expires_at: i64, state: &str, open_work: bool) -> CommandAge {
    CommandAge { expires_at: instant(expires_at), state: state.into(), open_work }
}

#[test]
fn only_terminal_commands_past_their_window_expire() {
    let rows = vec![
        command(NOW - 1, "committed", false),
        command(NOW - 1, "prepared", false),
        command(NOW - 1, "rejected", true),
        command(NOW + 1, "rejected", false),
        command(NOW - 5, "rejected", false),
        command(NOW, "committed", false),
    ];
    assert_eq!(expired_commands(&rows, NOW), vec![0, 4]);
}

#[test]
fn a_batch_takes_at_most_its_cap_oldest_first() {
    let rows: Vec<CommandAge> = (0..RETENTION_BATCH + 7).map(|_| command(NOW - 10, "committed", false)).collect();
    let removed = expired_commands(&rows, NOW);
    assert_eq!(removed.len(), RETENTION_BATCH);
    assert_eq!(removed[0], 0);
    assert_eq!(removed[RETENTION_BATCH - 1], RETENTION_BATCH - 1);
}

#[test]
fn pairings_and_sessions_go_a_week_after_they_end() {
    let old = instant(NOW - ENDED_KEPT - 1);
    let recent = instant(NOW - ENDED_KEPT + 1);
    let pairings = vec![
        PairingAge { expires_at: old.clone(), claim_grace_until: None },
        PairingAge { expires_at: old.clone(), claim_grace_until: Some(recent.clone()) },
        PairingAge { expires_at: recent.clone(), claim_grace_until: None },
        PairingAge { expires_at: old.clone(), claim_grace_until: Some(old.clone()) },
    ];
    assert_eq!(ended_pairings(&pairings, NOW), vec![0, 3]);
    let sessions = vec![
        SessionAge { expires_at: old.clone(), revoked_at: None, last_issued: false },
        SessionAge { expires_at: recent.clone(), revoked_at: Some(old.clone()), last_issued: false },
        SessionAge { expires_at: old.clone(), revoked_at: None, last_issued: true },
        SessionAge { expires_at: recent.clone(), revoked_at: Some(recent.clone()), last_issued: false },
    ];
    assert_eq!(ended_sessions(&sessions, NOW), vec![0, 1]);
}
