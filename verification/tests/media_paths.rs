use gallery_core::media::{
    build_file_infos, classify_media_path, filter_media_paths, get_all_extensions, get_file_type,
    is_supported_extension, MediaKind,
};
use gallery_core::text::{get_file_name, str_eq, str_starts_with};

#[test]
fn file_name_of_plain_path() {
    assert_eq!(get_file_name("/photos/cat.jpg"), "cat.jpg");
}

#[test]
fn file_name_ignores_trailing_separators() {
    assert_eq!(get_file_name("/photos/albums/"), "albums");
    assert_eq!(get_file_name("/photos/albums///"), "albums");
}

#[test]
fn file_name_of_bare_name() {
    assert_eq!(get_file_name("cat.jpg"), "cat.jpg");
}

#[test]
fn file_name_of_empty_and_root() {
    assert_eq!(get_file_name(""), "");
    assert_eq!(get_file_name("/"), "");
}

#[test]
fn file_type_of_images() {
    assert_eq!(get_file_type("/p/a.jpg"), "image");
    assert_eq!(get_file_type("/p/a.jpeg"), "image");
    assert_eq!(get_file_type("/p/a.png"), "image");
    assert_eq!(get_file_type("/p/a.gif"), "image");
    assert_eq!(get_file_type("/p/a.webp"), "image");
}

#[test]
fn file_type_is_case_insensitive() {
    assert_eq!(get_file_type("/p/a.JPG"), "image");
    assert_eq!(get_file_type("/p/a.Mp4"), "video");
}

#[test]
fn file_type_of_video_and_unknown() {
    assert_eq!(get_file_type("/p/a.mp4"), "video");
    assert_eq!(get_file_type("/p/a.txt"), "unknown");
    assert_eq!(get_file_type("/p/noext"), "unknown");
    assert_eq!(get_file_type("/p/.hidden"), "unknown");
    assert_eq!(get_file_type("/p/trailingdot."), "unknown");
}

#[test]
fn classify_matches_file_type() {
    assert_eq!(classify_media_path("/p/a.png"), MediaKind::Image);
    assert_eq!(classify_media_path("/p/a.mp4"), MediaKind::Video);
    assert_eq!(classify_media_path("/p/a.doc"), MediaKind::Unknown);
}

#[test]
fn watcher_extension_set_is_wider_than_scanner() {
    // The watcher also reacts to containers the scanner skips.
    assert!(is_supported_extension("/p/a.webm"));
    assert!(is_supported_extension("/p/a.mov"));
    assert_eq!(get_file_type("/p/a.webm"), "unknown");
    assert_eq!(get_file_type("/p/a.mov"), "unknown");
    assert!(is_supported_extension("/p/a.JPG"));
    assert!(!is_supported_extension("/p/a.txt"));
    assert!(!is_supported_extension("/p/noext"));
}

#[test]
fn all_extensions_listed() {
    let exts = get_all_extensions();
    assert_eq!(exts, vec!["jpg", "jpeg", "png", "gif", "webp", "mp4"]);
}

#[test]
fn filter_keeps_only_media_paths() {
    let paths = vec![
        "/p/a.jpg".to_string(),
        "/p/b.txt".to_string(),
        "/p/c.MP4".to_string(),
        "/p/d".to_string(),
        "/p/e.webp".to_string(),
    ];
    let kept = filter_media_paths(&paths);
    assert_eq!(kept, vec!["/p/a.jpg".to_string(), "/p/c.MP4".to_string(), "/p/e.webp".to_string()]);
}

#[test]
fn file_infos_carry_name_and_type() {
    let paths = vec!["/p/a.jpg".to_string(), "/p/b.mp4".to_string()];
    let infos = build_file_infos(&paths);
    assert_eq!(infos.len(), 2);
    assert_eq!(infos[0].file_path, "/p/a.jpg");
    assert_eq!(infos[0].file_name, "a.jpg");
    assert_eq!(infos[0].file_type, "image");
    assert_eq!(infos[1].file_name, "b.mp4");
    assert_eq!(infos[1].file_type, "video");
}

#[test]
fn string_helpers() {
    assert!(str_eq("abc", "abc"));
    assert!(!str_eq("abc", "abd"));
    assert!(!str_eq("abc", "abcd"));
    assert!(str_starts_with("/photos/cat.jpg", "/photos/"));
    assert!(!str_starts_with("/photos2/cat.jpg", "/photos/"));
    assert!(str_starts_with("anything", ""));
}
