use gallery_core::action_log::ActionLog;
use gallery_core::CoreError;

fn log_n(log: &mut ActionLog, n: usize) -> Vec<i64> {
    let mut ids = Vec::new();
    for i in 0..n {
        let id = log.log_action(
            format!("update:{}", i),
            "images".to_string(),
            i as i64,
            Some(format!("old{}", i)),
            Some(format!("new{}", i)),
            format!("2024-01-01T00:00:{:02}", i % 60),
        );
        ids.push(id);
    }
    ids
}

#[test]
fn ids_are_monotonic_from_one() {
    let mut log = ActionLog::new();
    let ids = log_n(&mut log, 3);
    assert_eq!(ids, vec![1, 2, 3]);
    assert_eq!(log.len(), 3);
}

#[test]
fn peek_undo_returns_most_recent_entry() {
    let mut log = ActionLog::new();
    log_n(&mut log, 4);
    let top = log.get_last_undoable_action().unwrap();
    assert_eq!(top.id, 4);
    assert_eq!(top.action_type, "update:3");
    assert_eq!(top.is_undone, 0);
}

#[test]
fn peek_undo_skips_undone_suffix() {
    let mut log = ActionLog::new();
    log_n(&mut log, 3);
    log.mark_action_undone(3).unwrap();
    let top = log.get_last_undoable_action().unwrap();
    assert_eq!(top.id, 2);
    log.mark_action_undone(2).unwrap();
    log.mark_action_undone(1).unwrap();
    assert!(log.get_last_undoable_action().is_none());
}

#[test]
fn peek_redo_returns_oldest_undone() {
    let mut log = ActionLog::new();
    log_n(&mut log, 3);
    assert!(log.get_last_redoable_action().is_none());
    log.mark_action_undone(3).unwrap();
    log.mark_action_undone(2).unwrap();
    let redo = log.get_last_redoable_action().unwrap();
    assert_eq!(redo.id, 2);
    log.mark_action_redone(2).unwrap();
    let redo2 = log.get_last_redoable_action().unwrap();
    assert_eq!(redo2.id, 3);
}

#[test]
fn marking_unknown_id_is_not_found() {
    let mut log = ActionLog::new();
    log_n(&mut log, 2);
    assert_eq!(log.mark_action_undone(99), Err(CoreError::NotFound));
    assert_eq!(log.mark_action_redone(99), Err(CoreError::NotFound));
}

#[test]
fn fifty_first_action_evicts_the_oldest() {
    let mut log = ActionLog::new();
    log_n(&mut log, 50);
    assert_eq!(log.len(), 50);
    assert_eq!(log.entry_at(0).id, 1);
    let id51 = log.log_action(
        "update:50".to_string(),
        "images".to_string(),
        50,
        None,
        None,
        "2024-01-01T00:01:00".to_string(),
    );
    assert_eq!(id51, 51);
    assert_eq!(log.len(), 50);
    // The lowest id went first; the rest slid down in order.
    assert_eq!(log.entry_at(0).id, 2);
    assert_eq!(log.entry_at(49).id, 51);
    for i in 0..50 {
        assert_eq!(log.entry_at(i).id, (i as i64) + 2);
    }
}

#[test]
fn new_action_purges_redo_suffix() {
    // Five actions, undo three, then one more: the three undone
    // entries go before the insert, leaving two originals plus the
    // new entry and no redo suffix.
    let mut log = ActionLog::new();
    log_n(&mut log, 5);
    log.mark_action_undone(5).unwrap();
    log.mark_action_undone(4).unwrap();
    log.mark_action_undone(3).unwrap();
    let id = log.log_action(
        "insert".to_string(),
        "images".to_string(),
        9,
        None,
        Some("fresh".to_string()),
        "2024-01-02T00:00:00".to_string(),
    );
    assert_eq!(id, 6);
    assert_eq!(log.len(), 3);
    assert_eq!(log.entry_at(0).id, 1);
    assert_eq!(log.entry_at(1).id, 2);
    assert_eq!(log.entry_at(2).id, 6);
    assert!(log.get_last_redoable_action().is_none());
}

#[test]
fn undone_entries_stay_a_contiguous_suffix() {
    // Drive the log through the undo/redo protocol and check the
    // suffix discipline at every step.
    let mut log = ActionLog::new();
    log_n(&mut log, 4);
    let check_suffix = |log: &ActionLog| {
        let n = log.len();
        let mut seen_undone = false;
        for i in 0..n {
            let e = log.entry_at(i);
            if e.is_undone != 0 {
                seen_undone = true;
            } else {
                assert!(!seen_undone, "active entry after an undone one");
            }
        }
    };
    for _ in 0..3 {
        let top = log.get_last_undoable_action().unwrap();
        log.mark_action_undone(top.id).unwrap();
        check_suffix(&log);
    }
    for _ in 0..2 {
        let redo = log.get_last_redoable_action().unwrap();
        log.mark_action_redone(redo.id).unwrap();
        check_suffix(&log);
    }
    log.log_action(
        "t".to_string(),
        "images".to_string(),
        1,
        None,
        None,
        "c".to_string(),
    );
    check_suffix(&log);
}

#[test]
fn entries_keep_their_payload() {
    let mut log = ActionLog::new();
    let id = log.log_action(
        "rating".to_string(),
        "images".to_string(),
        42,
        Some("3".to_string()),
        Some("5".to_string()),
        "2024-03-04T05:06:07".to_string(),
    );
    let e = log.get_last_undoable_action().unwrap();
    assert_eq!(e.id, id);
    assert_eq!(e.action_type, "rating");
    assert_eq!(e.target_table, "images");
    assert_eq!(e.target_id, 42);
    assert_eq!(e.old_value, Some("3".to_string()));
    assert_eq!(e.new_value, Some("5".to_string()));
    assert_eq!(e.created_at, "2024-03-04T05:06:07");
    assert_eq!(e.is_undone, 0);
}
