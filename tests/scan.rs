use caesium_catalog::app_data::AppData;
use caesium_catalog::catalog::{FileListColumn, SortOrder};
use caesium_catalog::digest::{digest_hex, image_id, preview_key};
use caesium_catalog::image::{CImage, ImageStatus};
use caesium_catalog::scan::{
    advanced_import_decision, file_list_view, get_real_resolution, import_entries, import_progress,
    is_filetype_supported, is_valid, is_valid_for_advanced_import, map_file, scan_files, size_filter_passes,
    AdvancedImportDialogFilter, AdvancedImportDialogSizeFilter, PostCompressionAction,
};
use caesium_catalog::catalog::AppDataFileList;
use caesium_catalog::text::text_is;

fn filter(pattern: &str, enabled: bool, size_pattern: &str) -> AdvancedImportDialogFilter {
    AdvancedImportDialogFilter {
        pattern: pattern.to_string(),
        size: AdvancedImportDialogSizeFilter { enabled, value: 2, unit: 1024, pattern: size_pattern.to_string() },
    }
}

#[test]
fn supported_types() {
    assert!(is_filetype_supported("/a/b.jpg", "image/jpeg"));
    assert!(is_filetype_supported("/a/b.png", "image/png"));
    assert!(is_filetype_supported("/a/b.gif", "image/gif"));
    assert!(is_filetype_supported("/a/b.webp", "image/webp"));
    assert!(is_filetype_supported("/a/b.TIFF", "image/tiff"));
    assert!(is_filetype_supported("/a/b.tif", "image/tiff"));
    assert!(!is_filetype_supported("/a/b.dng", "image/tiff"));
    assert!(!is_filetype_supported("/a/b", "image/tiff"));
    assert!(!is_filetype_supported("/a/b.txt", "text/plain"));
    assert!(is_valid(true, true, "/a/b.jpg", "image/jpeg"));
    assert!(!is_valid(true, false, "/a/b.jpg", "image/jpeg"));
    assert!(!is_valid(false, true, "/a/b.jpg", "image/jpeg"));
}

#[test]
fn orientation_swaps_jpeg_dimensions() {
    assert_eq!(get_real_resolution(40, 30, "image/jpeg", Some(6)), (30, 40));
    assert_eq!(get_real_resolution(40, 30, "image/jpeg", Some(8)), (30, 40));
    assert_eq!(get_real_resolution(40, 30, "image/jpeg", Some(1)), (40, 30));
    assert_eq!(get_real_resolution(40, 30, "image/jpeg", None), (40, 30));
    assert_eq!(get_real_resolution(40, 30, "image/png", Some(6)), (40, 30));
}

#[test]
fn ids_are_path_digests() {
    assert_eq!(image_id("/a/b/c.jpg"), "f1579ec3f8d76b6e21bb3965b50eb6e991aef6267fc07388717641aa07a99d54");
    assert_eq!(preview_key("abc", "{}"), "6abea7c44422324e3a051c0b150687005d47c8229083b58f2152bb2732409426");
    assert_eq!(digest_hex(&vec![0, 15, 16, 255]), "000f10ff");
}

#[test]
fn map_file_builds_new_entry() {
    let c = map_file("/a/b/c.jpg", 1234, "image/jpeg", 40, 30).unwrap();
    assert_eq!(c.id, "f1579ec3f8d76b6e21bb3965b50eb6e991aef6267fc07388717641aa07a99d54");
    assert_eq!(c.name, "c.jpg");
    assert_eq!(c.directory, "/a/b");
    assert_eq!(c.path, "/a/b/c.jpg");
    assert_eq!(c.size, 1234);
    assert_eq!((c.width, c.height), (40, 30));
    assert_eq!(c.status, ImageStatus::New);
    assert!(map_file("/", 1, "image/jpeg", 1, 1).is_none());
}

#[test]
fn progress_percent() {
    let p = import_progress(0, 3);
    assert_eq!(p.progress, 33);
    assert_eq!(p.total, 3);
    assert_eq!(import_progress(2, 3).progress, 100);
}

#[test]
fn scan_keeps_candidates_and_base() {
    let files = vec!["/a/b/c.jpg".to_string(), "/a/b/d/e.jpg".to_string()];
    let (base, kept) = scan_files(&files, "");
    assert_eq!(base, "/a/b");
    assert_eq!(kept, files);
    let (base, kept) = scan_files(&vec![], "/x");
    assert_eq!(base, "/x");
    assert!(kept.is_empty());
}

#[test]
fn import_sorts_and_counts() {
    let mut d = AppData::new();
    let a = map_file("/p/b.jpg", 1, "image/jpeg", 1, 1).unwrap();
    let b = map_file("/p/a.jpg", 2, "image/jpeg", 1, 1).unwrap();
    let again = map_file("/p/b.jpg", 5, "image/jpeg", 1, 1).unwrap();
    let r = import_entries(&mut d, vec![a, b, again]);
    assert_eq!(r.original_list_length, 0);
    assert_eq!(r.new_list_length, 2);
    let names: Vec<String> = d.file_list.iter().iter().map(|c| c.name.clone()).collect();
    assert_eq!(names, vec!["a.jpg", "b.jpg"]);
    d.file_list.sort_list_by(FileListColumn::Size, SortOrder::Descending);
    assert_eq!(d.file_list.iter()[0].size, 5);
    let view = file_list_view(&d, "/p".to_string());
    assert_eq!(view.total_files, 2);
    assert_eq!(view.files.len(), 2);
    assert_eq!(view.base_folder, "/p");
}

#[test]
fn advanced_import_filters() {
    assert!(!is_valid_for_advanced_import("a.jpg", Some(10), &filter("", false, "")));
    assert!(is_valid_for_advanced_import("a.jpg", Some(10), &filter(r"\.jpg$", false, "")));
    assert!(!is_valid_for_advanced_import("a.png", Some(10), &filter(r"\.jpg$", false, "")));
    assert!(!is_valid_for_advanced_import("a.jpg", Some(10), &filter("(", false, "")));
    assert!(is_valid_for_advanced_import("a.jpg", Some(4096), &filter("jpg", true, "greater_than")));
    assert!(!is_valid_for_advanced_import("a.jpg", Some(10), &filter("jpg", true, "greater_than")));
    assert!(is_valid_for_advanced_import("a.jpg", None, &filter("jpg", true, "greater_than")));
    assert!(size_filter_passes(&filter("", true, "equal_to").size, Some(2048)));
    assert!(size_filter_passes(&filter("", true, "less_than").size, Some(2047)));
    assert!(!size_filter_passes(&filter("", true, "other").size, Some(2047)));
    assert!(advanced_import_decision(&filter("x", false, ""), true, None));
    assert!(!advanced_import_decision(&filter("x", false, ""), false, None));
}

#[test]
fn post_compression_actions() {
    assert_eq!(PostCompressionAction::parse("close_app"), PostCompressionAction::CloseApp);
    assert_eq!(PostCompressionAction::parse("shutdown"), PostCompressionAction::Shutdown);
    assert_eq!(PostCompressionAction::parse("sleep"), PostCompressionAction::Sleep);
    assert_eq!(PostCompressionAction::parse("open_output_folder"), PostCompressionAction::OpenOutputFolder);
    assert_eq!(PostCompressionAction::parse("none"), PostCompressionAction::NoAction);
}

#[test]
fn text_helpers() {
    let l = AppDataFileList::new();
    let c = map_file("/photos/cat.jpg", 1, "image/jpeg", 1, 1).unwrap();
    assert!(l.is_query_hit(&c, &"cat".to_string()));
    assert!(l.is_query_hit(&c, &"photos/c".to_string()));
    assert!(l.is_query_hit(&c, &String::new()));
    assert!(!l.is_query_hit(&c, &"dog".to_string()));
    assert!(text_is("héllo", "héllo"));
    assert!(!text_is("hello", "hell"));
}

#[test]
fn status_codes() {
    assert_eq!(ImageStatus::New.code(), 0);
    assert_eq!(ImageStatus::Success.code(), 1);
    assert_eq!(ImageStatus::Warning.code(), 2);
    assert_eq!(ImageStatus::Error.code(), 3);
    assert_eq!(ImageStatus::Compressing.code(), -1);
    let _unused: Option<CImage> = None;
}

#[test]
fn scan_drops_paths_that_cannot_be_made_absolute() {
    let files = vec!["/a/b/c.jpg".to_string(), String::new(), "/a/x/y.jpg".to_string()];
    let (base, kept) = scan_files(&files, "");
    assert_eq!(kept, vec!["/a/b/c.jpg".to_string(), "/a/x/y.jpg".to_string()]);
    assert_eq!(base, "/a");
}

#[test]
fn ids_have_sixty_four_digits() {
    assert_eq!(image_id("").len(), 64);
    assert_eq!(map_file("/q/r.png", 1, "image/png", 1, 1).unwrap().id.len(), 64);
}
