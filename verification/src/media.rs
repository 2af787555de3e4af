//! Media classification: which file extensions the catalog supports,
//! the kind (image / video) of a path, and the per-file records that a
//! directory scan produces.
//!
//! Extensions are compared after ASCII case folding.  Every supported
//! extension is pure ASCII, and no character outside the ASCII letters
//! folds onto one of their letters, so folding only the ASCII range
//! matches them case-insensitively.

use vstd::prelude::*;

use crate::text::{
    extension_bounds, extension_spec, file_name_spec, get_file_name, lower_seq, region_lower_eq,
};

verus! {

/// The kind of a media file, decided by its extension.
#[derive(Clone, Copy, Debug, PartialEq, Eq, Structural)]
pub enum MediaKind {
    Image,
    Video,
    Unknown,
}

/// The case-folded extension of a path, if the path has an extension.
pub open spec fn lowered_extension(p: Seq<char>) -> Option<Seq<char>> {
    match extension_spec(p) {
        Some(e) => Some(lower_seq(e)),
        None => None,
    }
}

/// Case-folded extensions that name an image file.
pub open spec fn is_image_extension(e: Seq<char>) -> bool {
    e == "jpg"@ || e == "jpeg"@ || e == "png"@ || e == "gif"@ || e == "webp"@
}

/// Case-folded extensions that name a video file.
pub open spec fn is_video_extension(e: Seq<char>) -> bool {
    e == "mp4"@
}

/// The media kind of a path: image or video by extension, otherwise
/// unknown.
pub open spec fn media_kind_spec(p: Seq<char>) -> MediaKind {
    match lowered_extension(p) {
        Some(e) => if is_image_extension(e) {
            MediaKind::Image
        } else if is_video_extension(e) {
            MediaKind::Video
        } else {
            MediaKind::Unknown
        },
        None => MediaKind::Unknown,
    }
}

/// Does a directory scan keep this path?  Exactly the image and video
/// extensions are kept.
pub open spec fn is_scan_supported(p: Seq<char>) -> bool {
    media_kind_spec(p) != MediaKind::Unknown
}

/// Extensions the change watcher reacts to.  This set is wider than
/// the scanner's: it also covers video containers whose metadata the
/// catalog cannot read yet, so that their appearance is still
/// reported.
pub open spec fn is_watch_extension(e: Seq<char>) -> bool {
    is_image_extension(e) || e == "mp4"@ || e == "webm"@ || e == "mov"@
}

/// Does the change watcher react to this path?
pub open spec fn is_watch_supported(p: Seq<char>) -> bool {
    match lowered_extension(p) {
        Some(e) => is_watch_extension(e),
        None => false,
    }
}

/// The label stored for a media kind.
pub open spec fn file_type_label(k: MediaKind) -> Seq<char> {
    match k {
        MediaKind::Image => "image"@,
        MediaKind::Video => "video"@,
        MediaKind::Unknown => "unknown"@,
    }
}

/// Classify a path by its case-folded extension.
pub fn classify_media_path(path: &str) -> (k: MediaKind)
    ensures
        k == media_kind_spec(path@),
{
    match extension_bounds(path) {
        None => MediaKind::Unknown,
        Some((a, b)) => {
            if region_lower_eq(path, a, b, "jpg") || region_lower_eq(path, a, b, "jpeg")
                || region_lower_eq(path, a, b, "png") || region_lower_eq(path, a, b, "gif")
                || region_lower_eq(path, a, b, "webp") {
                MediaKind::Image
            } else if region_lower_eq(path, a, b, "mp4") {
                MediaKind::Video
            } else {
                MediaKind::Unknown
            }
        },
    }
}

/// The stored file-type label of a path: `image`, `video` or
/// `unknown`.
pub fn get_file_type(path: &str) -> (r: String)
    ensures
        r@ == file_type_label(media_kind_spec(path@)),
{
    match classify_media_path(path) {
        MediaKind::Image => "image".to_owned(),
        MediaKind::Video => "video".to_owned(),
        MediaKind::Unknown => "unknown".to_owned(),
    }
}

/// Does the change watcher react to this path?
pub fn is_supported_extension(path: &str) -> (r: bool)
    ensures
        r == is_watch_supported(path@),
{
    match extension_bounds(path) {
        None => false,
        Some((a, b)) => region_lower_eq(path, a, b, "jpg") || region_lower_eq(path, a, b, "jpeg")
            || region_lower_eq(path, a, b, "png") || region_lower_eq(path, a, b, "gif")
            || region_lower_eq(path, a, b, "webp") || region_lower_eq(path, a, b, "mp4")
            || region_lower_eq(path, a, b, "webm") || region_lower_eq(path, a, b, "mov"),
    }
}

/// Every extension the scanner keeps, lowercase.
pub fn get_all_extensions() -> (r: Vec<&'static str>)
    ensures
        r@.len() == 6,
        r@[0]@ == "jpg"@ && r@[1]@ == "jpeg"@ && r@[2]@ == "png"@ && r@[3]@ == "gif"@
            && r@[4]@ == "webp"@ && r@[5]@ == "mp4"@,
{
    let mut exts: Vec<&'static str> = Vec::new();
    exts.push("jpg");
    exts.push("jpeg");
    exts.push("png");
    exts.push("gif");
    exts.push("webp");
    exts.push("mp4");
    exts
}

/// The views of a sequence of strings.
pub open spec fn seq_views(v: Seq<String>) -> Seq<Seq<char>> {
    v.map_values(|s: String| s@)
}

/// Keep exactly the paths with a supported media extension, in order.
/// This is the filtering step of a directory scan; walking the tree
/// itself is input/output and happens outside the library.
pub fn filter_media_paths(paths: &Vec<String>) -> (r: Vec<String>)
    ensures
        seq_views(r@) == seq_views(paths@).filter(|p: Seq<char>| is_scan_supported(p)),
{
    let mut r: Vec<String> = Vec::new();
    let n = paths.len();
    let mut i: usize = 0;
    while i < n
        invariant
            0 <= i <= n,
            n == paths@.len(),
            seq_views(r@) == seq_views(paths@.take(i as int)).filter(
                |p: Seq<char>| is_scan_supported(p),
            ),
        decreases n - i,
    {
        let ghost prev = seq_views(r@);
        let keep = classify_media_path(paths[i].as_str());
        if !matches!(keep, MediaKind::Unknown) {
            r.push(paths[i].clone());
        }
        proof {
            reveal(Seq::filter);
            assert(seq_views(paths@.take(i + 1)).drop_last() =~= seq_views(
                paths@.take(i as int),
            ));
            assert(seq_views(paths@.take(i + 1)).last() == paths@[i as int]@);
            if is_scan_supported(paths@[i as int]@) {
                assert(seq_views(r@) =~= prev.push(paths@[i as int]@));
            } else {
                assert(seq_views(r@) =~= prev);
            }
        }
        i = i + 1;
    }
    proof {
        assert(paths@.take(n as int) =~= paths@);
    }
    r
}

/// The record a scan produces for one media file.
#[derive(Debug)]
pub struct ImageFileInfo {
    pub file_path: String,
    pub file_name: String,
    pub file_type: String,
}

/// Build the scan record of every path: the path itself, its file
/// name, and its file-type label.
pub fn build_file_infos(paths: &Vec<String>) -> (r: Vec<ImageFileInfo>)
    ensures
        r@.len() == paths@.len(),
        forall|i: int| #![trigger r@[i]]
            0 <= i < paths@.len() ==> r@[i].file_path@ == paths@[i]@ && r@[i].file_name@
                == file_name_spec(paths@[i]@) && r@[i].file_type@ == file_type_label(
                media_kind_spec(paths@[i]@),
            ),
{
    let mut r: Vec<ImageFileInfo> = Vec::new();
    let n = paths.len();
    let mut i: usize = 0;
    while i < n
        invariant
            0 <= i <= n,
            n == paths@.len(),
            r@.len() == i,
            forall|j: int| #![trigger r@[j]]
                0 <= j < i ==> r@[j].file_path@ == paths@[j]@ && r@[j].file_name@
                    == file_name_spec(paths@[j]@) && r@[j].file_type@ == file_type_label(
                    media_kind_spec(paths@[j]@),
                ),
        decreases n - i,
    {
        let file_name = get_file_name(paths[i].as_str());
        let file_type = get_file_type(paths[i].as_str());
        r.push(ImageFileInfo { file_path: paths[i].clone(), file_name, file_type });
        i = i + 1;
    }
    r
}

} // verus!
