use qaqh_workspace::edit::report::record_commit;
use qaqh_workspace::file_shared::content_hash;
use qaqh_workspace::ledger::{
    apply_pending, clear, correct_line, last_hash, record_delete, record_edit, record_edit_with_shifts, record_grep,
    record_read, record_write, summary, take_pending, Ledger, StateEntry,
};

#[test]
fn pending_roundtrip_applies_remote_ledger() {
    let key = "pending-roundtrip-a.txt";
    let mut ledger = Ledger::new();
    let _ = take_pending(&mut ledger);
    record_write(&mut ledger, key, "hello\nworld\n");
    let own: Vec<StateEntry> =
        take_pending(&mut ledger).into_iter().filter(|e| e.path == key).collect();
    assert_eq!(own.len(), 1, "one entry for our path");
    assert_eq!(own[0].op, "created");
    assert_eq!(own[0].line_count, 2);
    assert!(own[0].hash.is_some());

    let mut daemon = Ledger::new();
    apply_pending(&mut daemon, own);
    let h = last_hash(&daemon, key).expect("ledger restored from delta");
    assert_eq!(h, content_hash("hello\nworld\n"));

    record_edit(&mut ledger, key, "hello\nWORLD\n");
    let delta2: Vec<StateEntry> =
        take_pending(&mut ledger).into_iter().filter(|e| e.path == key).collect();
    assert_eq!(delta2.last().map(|e| e.op.as_str()), Some("edited"));
    apply_pending(&mut daemon, delta2);
    assert_eq!(last_hash(&daemon, key).unwrap(), content_hash("hello\nWORLD\n"));

    record_delete(&mut ledger, key);
    let delta3: Vec<StateEntry> =
        take_pending(&mut ledger).into_iter().filter(|e| e.path == key).collect();
    assert_eq!(delta3.last().map(|e| e.op.as_str()), Some("deleted"));
    assert!(delta3.last().unwrap().hash.is_none());
    apply_pending(&mut daemon, delta3);
    assert_eq!(last_hash(&daemon, key), None);
}

#[test]
fn take_pending_clears_the_queue() {
    let key = "pending-roundtrip-b.txt";
    let mut ledger = Ledger::new();
    record_read(&mut ledger, key, "x\n", 1);
    let mut saw_own = false;
    let mut queue = take_pending(&mut ledger);
    while queue.iter().any(|e| e.path == key) {
        saw_own = true;
        queue = take_pending(&mut ledger);
    }
    assert!(saw_own, "own entry observed in the queue");
}

#[test]
fn moved_lines_are_followed_until_the_next_read() {
    let mut ledger = Ledger::new();
    record_read(&mut ledger, "f", "a\nb\nc\n", 3);
    assert_eq!(correct_line(&ledger, "f", 2), None);
    record_edit_with_shifts(&mut ledger, "f", "x\ny\na\nb\nc\n", &[(1, 2), (3, -1)]);
    assert_eq!(correct_line(&ledger, "f", 2), Some((4, 2)));
    assert_eq!(correct_line(&ledger, "f", 3), Some((4, 1)));
    record_grep(&mut ledger, "f");
    assert_eq!(correct_line(&ledger, "f", 2), None);
}

#[test]
fn committed_edits_keep_their_moves() {
    let mut ledger = Ledger::new();
    record_commit(&mut ledger, "f", "a\nb\n", &[(2, 1)]);
    assert_eq!(correct_line(&ledger, "f", 2), Some((3, 1)));
    record_commit(&mut ledger, "f", "z\n", &[]);
    assert_eq!(correct_line(&ledger, "f", 2), None);
    assert_eq!(last_hash(&ledger, "f"), Some(content_hash("z\n")));
}

#[test]
fn summary_lists_the_files_touched_last() {
    let mut ledger = Ledger::new();
    assert_eq!(summary(&ledger), "");
    record_write(&mut ledger, "a.txt", "1\n2\n");
    record_delete(&mut ledger, "b.txt");
    let text = summary(&ledger);
    assert!(text.starts_with("<file_state>\n  b.txt"));
    assert!(text.contains("2L  (created)\n"));
    assert!(text.contains("—  (deleted)\n"));
    assert!(text.ends_with("</file_state>"));
}

#[test]
fn line_endings_do_not_change_the_fingerprint() {
    let mut ledger = Ledger::new();
    record_write(&mut ledger, "f", "a\r\nb\r\n");
    assert_eq!(last_hash(&ledger, "f"), Some(content_hash("a\nb\n")));
}

#[test]
fn a_line_is_carried_through_the_edits_in_turn() {
    let mut ledger = Ledger::new();
    record_read(&mut ledger, "m.txt", "1\n2\n3\n", 3);
    let ten = "i\n".repeat(10);
    record_edit_with_shifts(&mut ledger, "m.txt", &format!("{ten}1\n2\n3\n"), &[(1, 10)]);
    assert_eq!(correct_line(&ledger, "m.txt", 3), Some((13, 10)));
    record_edit_with_shifts(&mut ledger, "m.txt", &format!("{ten}1\n3\n"), &[(12, -1)]);
    assert_eq!(correct_line(&ledger, "m.txt", 3), Some((12, 9)));
    assert_eq!(correct_line(&ledger, "m.txt", 1), Some((11, 10)));
}

#[test]
fn an_edit_that_moves_nothing_leaves_every_line() {
    let mut ledger = Ledger::new();
    record_edit_with_shifts(&mut ledger, "f", "a\n", &[]);
    assert_eq!(correct_line(&ledger, "f", 0), Some((0, 0)));
    assert_eq!(correct_line(&ledger, "f", 7), Some((7, 0)));
}

#[test]
fn a_delete_forgets_the_moves() {
    let mut ledger = Ledger::new();
    record_read(&mut ledger, "d.txt", "x\n", 1);
    record_edit_with_shifts(&mut ledger, "d.txt", "a\nb\nc\nx\n", &[(1, 3)]);
    assert_eq!(correct_line(&ledger, "d.txt", 5), Some((8, 3)));
    record_delete(&mut ledger, "d.txt");
    assert_eq!(last_hash(&ledger, "d.txt"), None);
    assert_eq!(correct_line(&ledger, "d.txt", 5), None);
}

#[test]
fn clearing_forgets_everything() {
    let mut ledger = Ledger::new();
    record_read(&mut ledger, "a", "x\n", 1);
    record_edit_with_shifts(&mut ledger, "a", "y\nx\n", &[(1, 1)]);
    clear(&mut ledger);
    assert_eq!(summary(&ledger), "");
    assert_eq!(last_hash(&ledger, "a"), None);
    assert_eq!(correct_line(&ledger, "a", 1), None);
    assert!(take_pending(&mut ledger).is_empty());
}
