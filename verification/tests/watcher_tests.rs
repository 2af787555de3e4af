use gallery_core::catalog::Catalog;
use gallery_core::watcher::{
    classify_window, plan_watch_set, PathObservation, WatchCandidate, WatcherState,
};

fn seen(path: &str, exists: bool) -> PathObservation {
    PathObservation { path: path.to_string(), exists }
}

#[test]
fn window_splits_by_existence() {
    let obs = vec![
        seen("/p/new.jpg", true),
        seen("/p/gone.png", false),
        seen("/p/also.mp4", true),
    ];
    let batch = classify_window(&obs);
    assert_eq!(batch.added, vec!["/p/also.mp4".to_string(), "/p/new.jpg".to_string()]);
    assert_eq!(batch.removed, vec!["/p/gone.png".to_string()]);
}

#[test]
fn window_drops_unsupported_paths() {
    let obs = vec![
        seen("/p/a.txt", true),
        seen("/p/b.jpg", true),
        seen("/p/c.log", false),
    ];
    let batch = classify_window(&obs);
    assert_eq!(batch.added, vec!["/p/b.jpg".to_string()]);
    assert!(batch.removed.is_empty());
}

#[test]
fn window_output_is_sorted_and_deduplicated() {
    let obs = vec![
        seen("/p/z.jpg", true),
        seen("/p/a.jpg", true),
        seen("/p/m.jpg", true),
        seen("/p/a.jpg", true),
        seen("/p/z.jpg", true),
    ];
    let batch = classify_window(&obs);
    assert_eq!(
        batch.added,
        vec!["/p/a.jpg".to_string(), "/p/m.jpg".to_string(), "/p/z.jpg".to_string()]
    );
}

#[test]
fn empty_window_gives_empty_batch() {
    let batch = classify_window(&Vec::new());
    assert!(batch.added.is_empty());
    assert!(batch.removed.is_empty());
}

#[test]
fn observed_path_reaches_the_catalog() {
    // A supported path observed as existing lands in `added`, and
    // applying the batch leaves a catalog entry for it.
    let obs = vec![seen("/p/fresh.webp", true)];
    let batch = classify_window(&obs);
    assert_eq!(batch.added, vec!["/p/fresh.webp".to_string()]);
    let mut cat = Catalog::new();
    cat.apply_change_batch(&batch);
    let entry = cat.get_entry_by_path("/p/fresh.webp").unwrap();
    assert_eq!(entry.file_type, "image");
    assert_eq!(entry.directory_id, None);
}

#[test]
fn plan_keeps_only_directories() {
    let candidates = vec![
        WatchCandidate { path: "/a".to_string(), is_dir: true },
        WatchCandidate { path: "/missing".to_string(), is_dir: false },
        WatchCandidate { path: "/b".to_string(), is_dir: true },
    ];
    let planned = plan_watch_set(&candidates);
    assert_eq!(planned, vec!["/a".to_string(), "/b".to_string()]);
}

#[test]
fn watcher_state_transitions() {
    let mut ws = WatcherState::new();
    assert!(ws.get_watched_paths().is_empty());
    ws.mark_started(vec!["/a".to_string(), "/b".to_string()]);
    assert_eq!(ws.get_watched_paths(), vec!["/a".to_string(), "/b".to_string()]);
    // A restart replaces the whole watch set.
    ws.mark_started(vec!["/c".to_string()]);
    assert_eq!(ws.get_watched_paths(), vec!["/c".to_string()]);
    ws.mark_stopped();
    assert!(ws.get_watched_paths().is_empty());
    // Stopping again is harmless.
    ws.mark_stopped();
    assert!(ws.get_watched_paths().is_empty());
}
