use gluttony::scanner::Platform;
use gluttony::trash::{
    age_label_at, emptied_message, emptied_tally, restore_tally, gluttony_dir, is_yes, sessions_path, new_session_id,
    purge_before, record_session_at, remove_session, restore_message, session_label_at,
    session_trash_dir, slot_path, trash_totals, Recording, TrashEntry, TrashSession,
    RETENTION_SECS,
};

fn entry(size: u64, index: usize) -> TrashEntry {
    TrashEntry { original: format!("/p/{index}"), kind: "node_modules".to_string(), size, index }
}

fn session(id: &str, timestamp: u64, sizes: &[u64]) -> TrashSession {
    TrashSession {
        id: id.to_string(),
        timestamp,
        entries: sizes.iter().enumerate().map(|(i, s)| entry(*s, i)).collect(),
    }
}

#[test]
fn ages() {
    assert_eq!(age_label_at(100, 159), "just now");
    assert_eq!(age_label_at(100, 160), "1 min ago");
    assert_eq!(age_label_at(0, 3599), "59 min ago");
    assert_eq!(age_label_at(0, 3600), "1 h ago");
    assert_eq!(age_label_at(0, 86_399), "23 h ago");
    assert_eq!(age_label_at(0, 86_400 * 3), "3 days ago");
    assert_eq!(age_label_at(500, 10), "just now");
}

#[test]
fn session_totals() {
    let s = session("1", 0, &[1, 2, 3]);
    assert_eq!(s.total_size(), 6);
    assert_eq!(session("2", 0, &[]).total_size(), 0);
    assert_eq!(trash_totals(&vec![s, session("2", 0, &[10])]), (16, 4));
}

#[test]
fn purge_keeps_recent_sessions_in_order() {
    let cutoff = 4_000_000 - RETENTION_SECS;
    let mut sessions = vec![session("old", 10, &[1]), session("new", 5_000_000, &[2]), session("edge", cutoff, &[3])];
    let expired = purge_before(&mut sessions, cutoff);
    assert_eq!(expired, vec!["old".to_string()]);
    assert_eq!(sessions.len(), 2);
    assert_eq!(sessions[0].id, "new");
    assert_eq!(sessions[1].id, "edge");
}

#[test]
fn recording_sessions() {
    let now = 10_000_000;
    let before = vec![session("1", 1, &[1]), session("9000000", 9_000_000, &[2])];
    match record_session_at(before.clone(), "10000000", vec![], now) {
        Recording::Discarded => {}
        Recording::Recorded { .. } => panic!("an empty session is not recorded"),
    }
    match record_session_at(before, "10000000", vec![entry(5, 0)], now) {
        Recording::Recorded { sessions, expired } => {
            assert_eq!(expired, vec!["1".to_string()]);
            assert_eq!(sessions.len(), 2);
            assert_eq!(sessions[0].id, "9000000");
            assert_eq!(sessions[1].id, "10000000");
            assert_eq!(sessions[1].timestamp, now);
            let forgotten = remove_session(sessions, "10000000");
            assert_eq!(forgotten.len(), 1);
            assert_eq!(forgotten[0].id, "9000000");
        }
        Recording::Discarded => panic!("a session with entries is recorded"),
    }
}

#[test]
fn removing_unknown_session_changes_nothing() {
    let sessions = vec![session("a", 1, &[]), session("b", 2, &[])];
    let kept = remove_session(sessions, "c");
    assert_eq!(kept.len(), 2);
}

#[test]
fn trash_places() {
    assert_eq!(gluttony_dir(Some("/home/ann"), Platform::Linux), Some("/home/ann/.gluttony".to_string()));
    assert_eq!(gluttony_dir(None, Platform::Linux), None);
    assert_eq!(sessions_path(Some("/home/ann"), Platform::Linux), Some("/home/ann/.gluttony/sessions.json".to_string()));
    assert_eq!(sessions_path(None, Platform::Linux), None);
    assert_eq!(
        session_trash_dir(Some("/home/ann/"), "1700000000", Platform::Linux),
        Some("/home/ann/.gluttony/trash/1700000000".to_string())
    );
    assert_eq!(slot_path("/t/1", 12, Platform::Linux), "/t/1/12");
    let id = new_session_id();
    assert!(!id.is_empty() && id.chars().all(|c| c.is_ascii_digit()));
}

#[test]
fn session_lines() {
    let s = session("1", 0, &[1_500_000]);
    assert_eq!(session_label_at(&s, 30), "just now            1 artefact      1.50 MB");
    let t = session("2", 0, &[1, 2]);
    assert_eq!(session_label_at(&t, 7200), "2 h ago             2 artefacts         3 B");
}

#[test]
fn messages() {
    assert_eq!(restore_message(1, 0), "Restored 1 artefact.");
    assert_eq!(restore_message(3, 0), "Restored 3 artefacts.");
    assert_eq!(restore_message(2, 1), "Restored 2. 1 could not be restored.");
    assert_eq!(emptied_message(2_000, 0), "Trash emptied. 2.00 KB permanently freed.");
    assert_eq!(emptied_message(0, 1), "Done. 0 B freed. 1 session could not be fully removed.");
    assert_eq!(emptied_message(0, 2), "Done. 0 B freed. 2 sessions could not be fully removed.");
}

#[test]
fn confirmation_answers() {
    assert!(is_yes("y\n"));
    assert!(is_yes("  YES \r\n"));
    assert!(is_yes("Yes"));
    assert!(is_yes("\u{3000}y"));
    assert!(!is_yes(""));
    assert!(!is_yes("\n"));
    assert!(!is_yes("n"));
    assert!(!is_yes("yess"));
    assert!(!is_yes("y e s"));
    assert!(!is_yes("ye"));
}

#[test]
fn emptying_tally_counts_removed_sessions() {
    let sessions = vec![session("a", 0, &[1, 2]), session("b", 0, &[10]), session("c", 0, &[100]), session("d", 0, &[7])];
    assert_eq!(emptied_tally(&sessions, &vec![Some(true), Some(false), None, Some(true)]), (10, 1));
    assert_eq!(emptied_tally(&sessions, &vec![Some(true); 4]), (120, 0));
    assert_eq!(emptied_tally(&vec![], &vec![]), (0, 0));
}

#[test]
fn restoring_tally_keeps_the_folder_on_failure() {
    assert_eq!(restore_tally(&vec![true, true, true]), (3, 0, true));
    assert_eq!(restore_tally(&vec![true, false, true]), (2, 1, false));
    assert_eq!(restore_tally(&vec![]), (0, 0, true));
}
