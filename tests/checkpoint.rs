use transrustica::checkpoint::{
    format_ledger_line, parse_index_line, parse_ledger_line, Checkpoint, LedgerEntry,
};
use transrustica::segment::scenes_from_boundaries;

#[test]
fn resume_dispatches_only_unfinished_scenes() {
    let scenes = scenes_from_boundaries(&vec![0, 1000, 2000, 3000, 4000, 5000]);
    let mut cp = Checkpoint::new();
    // the first run was killed after scenes 0 and 1; the log also holds a
    // repeated line and a torn one
    for line in ["0", "1", "1", "x"] {
        cp.load_index_line(line.as_bytes());
    }
    assert_eq!(cp.completed_indices(), &vec![0, 1]);
    let rest = cp.pending(&scenes);
    let idx: Vec<usize> = rest.iter().map(|s| s.index).collect();
    assert_eq!(idx, vec![2, 3, 4]);
    for s in &rest {
        cp.complete_scene(LedgerEntry { index: s.index, original_kb: 100, encoded_kb: 50 });
    }
    assert_eq!(cp.completed_indices(), &vec![0, 1, 2, 3, 4]);
    assert!(cp.pending(&scenes).is_empty());
    assert!(!cp.mark_done(3));
    assert_eq!(cp.completed_indices().len(), 5);
}

#[test]
fn index_lines() {
    assert_eq!(parse_index_line(b"12"), Some(12));
    assert_eq!(parse_index_line(b" 7\r"), Some(7));
    assert_eq!(parse_index_line(b""), None);
    assert_eq!(parse_index_line(b"1 2"), None);
    assert_eq!(parse_index_line(b"-3"), None);
    assert_eq!(parse_index_line(b"99999999999"), None);
}

#[test]
fn ledger_line_round_trip() {
    let e = LedgerEntry { index: 3, original_kb: 1200, encoded_kb: 400 };
    let line = format_ledger_line(&e);
    assert_eq!(line, b"index: 3, scene_size: 1200, encoded_size: 400".to_vec());
    assert_eq!(parse_ledger_line(&line), Some(e));
    assert_eq!(parse_ledger_line(b"index: 3, scene_size: 1200"), None);
}

#[test]
fn ledger_keeps_first_entry_per_index() {
    let mut cp = Checkpoint::new();
    assert!(cp.record_sizes(LedgerEntry { index: 1, original_kb: 10, encoded_kb: 5 }));
    assert!(!cp.record_sizes(LedgerEntry { index: 1, original_kb: 99, encoded_kb: 99 }));
    assert_eq!(cp.ledger_entries().len(), 1);
    assert_eq!(cp.ledger_entries()[0].original_kb, 10);
    assert!(cp.completed_indices().is_empty());
}

#[test]
fn clear_forgets_everything() {
    let mut cp = Checkpoint::new();
    cp.complete_scene(LedgerEntry { index: 0, original_kb: 1, encoded_kb: 1 });
    assert!(cp.is_done(0));
    cp.clear();
    assert!(!cp.is_done(0));
    assert!(cp.ledger_entries().is_empty());
}

#[test]
fn ledger_lines_load_only_for_completed_scenes() {
    let mut cp = Checkpoint::new();
    cp.load_index_line(b"2");
    assert_eq!(cp.load_index_line(b"99999999999"), None);
    let kept = cp.load_ledger_line(b"index: 2, scene_size: 900, encoded_size: 300");
    assert_eq!(kept, Some(LedgerEntry { index: 2, original_kb: 900, encoded_kb: 300 }));
    cp.load_ledger_line(b"index: 5, scene_size: 10, encoded_size: 5");
    assert_eq!(cp.load_ledger_line(b"index: 2, scene_si"), None);
    assert_eq!(cp.ledger_entries(), &vec![LedgerEntry { index: 2, original_kb: 900, encoded_kb: 300 }]);
    assert_eq!(cp.completed_indices(), &vec![2]);
}
