use gallery_core::catalog::{Catalog, DirectoryScanOutcome};
use gallery_core::media::filter_media_paths;
use gallery_core::watcher::FileChangePayload;
use gallery_core::CoreError;

fn photo_scan() -> Vec<String> {
    // Three matching files and two that the scanner drops.
    let on_disk = vec![
        "/photos/a.jpg".to_string(),
        "/photos/notes.txt".to_string(),
        "/photos/b.png".to_string(),
        "/photos/readme.md".to_string(),
        "/photos/c.mp4".to_string(),
    ];
    filter_media_paths(&on_disk)
}

#[test]
fn add_directory_catalogs_matching_files() {
    // A folder with 3 matching and 2 non-matching files yields a row
    // with fileCount 3 and exactly 3 new catalog entries.
    let mut cat = Catalog::new();
    let scanned = photo_scan();
    assert_eq!(scanned.len(), 3);
    let dir = cat.add_directory("/photos", true, &scanned, "2024-01-01").unwrap();
    assert_eq!(dir.id, 1);
    assert_eq!(dir.path, "/photos");
    assert_eq!(dir.name, "photos");
    assert_eq!(dir.is_active, 1);
    assert_eq!(dir.file_count, 3);
    assert_eq!(dir.last_scanned_at, Some("2024-01-01".to_string()));
    assert_eq!(dir.created_at, "2024-01-01");
    assert_eq!(cat.entry_count(), 3);
    let e = cat.get_entry_by_path("/photos/a.jpg").unwrap();
    assert_eq!(e.file_name, "a.jpg");
    assert_eq!(e.file_type, "image");
    assert_eq!(e.directory_id, Some(1));
    assert_eq!(cat.get_entry_by_path("/photos/c.mp4").unwrap().file_type, "video");
    assert!(cat.get_entry_by_path("/photos/notes.txt").is_none());
}

#[test]
fn add_directory_rejects_non_directories() {
    let mut cat = Catalog::new();
    let scanned: Vec<String> = Vec::new();
    match cat.add_directory("/missing", false, &scanned, "t") {
        Err(e) => assert_eq!(e, CoreError::NotADirectory),
        Ok(_) => panic!("a missing path must be rejected"),
    }
    assert_eq!(cat.directory_count(), 0);
}

#[test]
fn re_adding_reactivates_instead_of_duplicating() {
    let mut cat = Catalog::new();
    let scanned = photo_scan();
    let first = cat.add_directory("/photos", true, &scanned, "t1").unwrap();
    cat.set_directory_active(first.id, false).unwrap();
    let again = cat.add_directory("/photos", true, &scanned, "t2").unwrap();
    assert_eq!(again.id, first.id);
    assert_eq!(again.is_active, 1);
    assert_eq!(cat.directory_count(), 1);
    // The scan results were already cataloged: no duplicates.
    assert_eq!(cat.entry_count(), 3);
    assert_eq!(again.file_count, 3);
}

#[test]
fn list_is_most_recently_created_first() {
    let mut cat = Catalog::new();
    let none: Vec<String> = Vec::new();
    cat.add_directory("/a", true, &none, "t1").unwrap();
    cat.add_directory("/b", true, &none, "t2").unwrap();
    cat.add_directory("/c", true, &none, "t3").unwrap();
    let all = cat.get_all_directories();
    let paths: Vec<&str> = all.iter().map(|d| d.path.as_str()).collect();
    assert_eq!(paths, vec!["/c", "/b", "/a"]);
}

#[test]
fn remove_directory_unlinks_but_keeps_entries() {
    // After removal the listing no longer includes the id, but a
    // previously linked path still resolves, now unlinked.
    let mut cat = Catalog::new();
    let scanned = photo_scan();
    let dir = cat.add_directory("/photos", true, &scanned, "t").unwrap();
    assert_eq!(cat.remove_directory(dir.id), Ok(()));
    assert!(cat.get_all_directories().iter().all(|d| d.id != dir.id));
    assert_eq!(cat.directory_count(), 0);
    let survivor = cat.get_entry_by_path("/photos/b.png").unwrap();
    assert_eq!(survivor.directory_id, None);
    assert_eq!(survivor.file_name, "b.png");
    assert_eq!(cat.entry_count(), 3);
}

#[test]
fn remove_unknown_directory_is_not_found() {
    let mut cat = Catalog::new();
    assert_eq!(cat.remove_directory(9), Err(CoreError::NotFound));
    assert_eq!(cat.set_directory_active(9, true), Err(CoreError::NotFound));
}

#[test]
fn backfill_links_unlinked_entries_under_prefix() {
    let mut cat = Catalog::new();
    // Two loose entries arrive through a change batch, unlinked.
    let batch = FileChangePayload {
        added: vec!["/photos/d.jpg".to_string(), "/videos/v.mp4".to_string()],
        removed: Vec::new(),
    };
    cat.apply_change_batch(&batch);
    assert_eq!(cat.get_entry_by_path("/photos/d.jpg").unwrap().directory_id, None);
    // Registering the directory backfills the one under its prefix.
    let dir = cat.add_directory("/photos", true, &Vec::new(), "t").unwrap();
    assert_eq!(dir.file_count, 1);
    assert_eq!(cat.get_entry_by_path("/photos/d.jpg").unwrap().directory_id, Some(dir.id));
    assert_eq!(cat.get_entry_by_path("/videos/v.mp4").unwrap().directory_id, None);
}

#[test]
fn backfill_twice_changes_nothing_more() {
    let mut cat = Catalog::new();
    let scanned = photo_scan();
    let dir = cat.add_directory("/photos", true, &scanned, "t").unwrap();
    cat.remove_directory(dir.id).unwrap();
    let dir2 = cat.add_directory("/photos", true, &Vec::new(), "t2").unwrap();
    let snapshot = |cat: &Catalog| -> Vec<(i64, String, Option<i64>)> {
        (0..cat.entry_count())
            .map(|i| {
                let e = cat.entry_at(i);
                (e.id, e.file_path, e.directory_id)
            })
            .collect()
    };
    cat.backfill(dir2.id, "/photos/").unwrap();
    let once = snapshot(&cat);
    cat.backfill(dir2.id, "/photos/").unwrap();
    let twice = snapshot(&cat);
    assert_eq!(once, twice);
    assert!(once.iter().all(|(_, _, d)| *d == Some(dir2.id)));
}

#[test]
fn backfill_unknown_directory_is_not_found() {
    let mut cat = Catalog::new();
    assert_eq!(cat.backfill(3, "/x/"), Err(CoreError::NotFound));
}

#[test]
fn change_batch_insertion_is_idempotent() {
    let mut cat = Catalog::new();
    let batch = FileChangePayload {
        added: vec!["/p/a.jpg".to_string(), "/p/b.jpg".to_string()],
        removed: Vec::new(),
    };
    assert_eq!(cat.apply_change_batch(&batch), 2);
    assert_eq!(cat.apply_change_batch(&batch), 0);
    assert_eq!(cat.entry_count(), 2);
}

#[test]
fn removed_paths_are_not_deleted() {
    // Disk removal must not discard the entry: the caller decides
    // what to surface; annotations survive.
    let mut cat = Catalog::new();
    let batch = FileChangePayload { added: vec!["/p/a.jpg".to_string()], removed: Vec::new() };
    cat.apply_change_batch(&batch);
    let removal = FileChangePayload { added: Vec::new(), removed: vec!["/p/a.jpg".to_string()] };
    cat.apply_change_batch(&removal);
    assert_eq!(cat.entry_count(), 1);
    assert!(cat.get_entry_by_path("/p/a.jpg").is_some());
}

#[test]
fn rescan_updates_stats_only() {
    let mut cat = Catalog::new();
    let dir = cat.add_directory("/photos", true, &photo_scan(), "t1").unwrap();
    let rescanned = vec!["/photos/a.jpg".to_string(), "/photos/b.png".to_string()];
    cat.rescan_directory(dir.id, &rescanned, "t2").unwrap();
    let row = &cat.get_all_directories()[0];
    assert_eq!(row.file_count, 2);
    assert_eq!(row.last_scanned_at, Some("t2".to_string()));
    // No diffing: the catalog still holds all three entries.
    assert_eq!(cat.entry_count(), 3);
    assert_eq!(cat.rescan_directory(99, &rescanned, "t3"), Err(CoreError::NotFound));
}

#[test]
fn bulk_rescan_reports_partial_results() {
    let mut cat = Catalog::new();
    let a = cat.add_directory("/a", true, &vec!["/a/x.jpg".to_string()], "t0").unwrap();
    let b = cat.add_directory("/b", true, &Vec::new(), "t0").unwrap();
    let outcomes = vec![
        DirectoryScanOutcome {
            directory_id: a.id,
            scanned: Ok(vec!["/a/x.jpg".to_string(), "/a/y.jpg".to_string()]),
        },
        DirectoryScanOutcome {
            directory_id: b.id,
            scanned: Err("permission denied".to_string()),
        },
        DirectoryScanOutcome { directory_id: 77, scanned: Ok(Vec::new()) },
    ];
    let summary = cat.apply_rescan_outcomes(&outcomes, "t1");
    assert_eq!(summary.succeeded, vec![a.id]);
    assert_eq!(summary.failed, vec![b.id, 77]);
    let rows = cat.get_all_directories();
    let row_a = rows.iter().find(|d| d.id == a.id).unwrap();
    assert_eq!(row_a.file_count, 2);
    assert_eq!(row_a.last_scanned_at, Some("t1".to_string()));
    let row_b = rows.iter().find(|d| d.id == b.id).unwrap();
    assert_eq!(row_b.last_scanned_at, Some("t0".to_string()));
}

#[test]
fn active_directories_follow_the_flag() {
    let mut cat = Catalog::new();
    let none: Vec<String> = Vec::new();
    let a = cat.add_directory("/a", true, &none, "t").unwrap();
    let b = cat.add_directory("/b", true, &none, "t").unwrap();
    cat.set_directory_active(a.id, false).unwrap();
    let active = cat.active_directories();
    assert_eq!(active.len(), 1);
    assert_eq!(active[0].id, b.id);
    cat.set_directory_active(a.id, true).unwrap();
    assert_eq!(cat.active_directories().len(), 2);
}
