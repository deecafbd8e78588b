use caesium_catalog::options::{
    CompressionOptions, JPEGOptions, OptionsPayload, OutputOptions, PNGOptions, ResizeOptions, TIFFOptions,
    WebPOptions,
};
use caesium_catalog::paths::{
    components_of, compute_base_folder, compute_base_path, compute_output_full_path, determine_output_directory,
    extension_of_name, file_name_of_path, join_components, mirror_directory, output_file_name_of, parent_of_path,
    resolve_output_path,
};

fn options(output_folder: &str, same_folder: bool, keep: bool, suffix: &str, format: &str) -> OptionsPayload {
    OptionsPayload {
        compression_options: CompressionOptions {
            jpeg: JPEGOptions { quality: 80, chroma_subsampling: "auto".to_string(), progressive: true },
            png: PNGOptions { quality: 80, optimization_level: 3 },
            webp: WebPOptions { quality: 60 },
            tiff: TIFFOptions { method: "deflate".to_string(), deflate_level: 6 },
            compression_mode: 0,
            keep_metadata: true,
            lossless: false,
            max_size_value: 500,
            max_size_unit: 1024,
        },
        resize_options: ResizeOptions {
            resize_enabled: false,
            resize_mode: "none".to_string(),
            keep_aspect_ratio: true,
            do_not_enlarge: false,
            width: 0,
            height: 0,
            width_percentage: 100,
            height_percentage: 100,
            long_edge: 0,
            short_edge: 0,
        },
        output_options: OutputOptions {
            output_folder: output_folder.to_string(),
            same_folder_as_input: same_folder,
            keep_folder_structure: keep,
            skip_if_output_is_bigger: false,
            move_original_file_enabled: false,
            move_original_file_mode: "trash".to_string(),
            keep_file_dates_enabled: false,
            keep_creation_date: false,
            keep_last_modified_date: false,
            keep_last_access_date: false,
            output_format: format.to_string(),
            suffix: suffix.to_string(),
        },
    }
}

#[test]
fn components_split_on_separators() {
    assert_eq!(components_of("/a//b/./c.jpg"), vec!["/", "a", "b", "c.jpg"]);
    assert_eq!(components_of("a/b/"), vec!["a", "b"]);
    assert_eq!(components_of(""), Vec::<String>::new());
    assert_eq!(components_of("/"), vec!["/"]);
}

#[test]
fn join_is_canonical() {
    let cs = components_of("/x//y/z");
    assert_eq!(join_components(&cs, 3), "/x/y");
    assert_eq!(join_components(&cs, 1), "/");
    assert_eq!(join_components(&components_of("a/b"), 2), "a/b");
}

#[test]
fn base_folder_converges_to_common_ancestor() {
    let b1 = compute_base_folder("", "/a/b/c.jpg", true);
    assert_eq!(b1, "/a/b");
    let b2 = compute_base_folder(&b1, "/a/b/d/e.jpg", true);
    assert_eq!(b2, "/a/b");
}

#[test]
fn base_folder_of_single_path() {
    assert_eq!(compute_base_folder("", "/x/y.jpg", true), "/x");
}

#[test]
fn base_folder_shrinks_on_divergence() {
    assert_eq!(compute_base_folder("/a/b/c", "/a/x/y.png", true), "/a");
    assert_eq!(compute_base_folder("/a/b", "/q/r.png", true), "/");
}

#[test]
fn base_folder_of_directory_uses_it_whole() {
    assert_eq!(compute_base_folder("/a/b/c", "/a/b", false), "/a/b");
    assert_eq!(compute_base_folder("/a/b/c", "/a/b", true), "/a");
}

#[test]
fn root_base_folder_stays() {
    assert_eq!(compute_base_folder("/", "/a/b.png", true), "/");
}

#[test]
fn base_path_of_absolute_path() {
    assert_eq!(compute_base_path("/a/b/c.jpg", "", true), Some("/a/b".to_string()));
    assert_eq!(compute_base_path("/a/b/d/e.jpg", "/a/b/c", true), Some("/a/b".to_string()));
}

#[test]
fn base_path_of_relative_path_is_absolute() {
    let b = compute_base_path("pics/c.jpg", "", true).unwrap();
    assert!(b.starts_with('/'));
    assert!(b.ends_with("/pics"));
}

#[test]
fn file_name_and_extension() {
    assert_eq!(file_name_of_path("/a/b/c.tar.gz"), Some("c.tar.gz".to_string()));
    assert_eq!(file_name_of_path("/"), None);
    assert_eq!(file_name_of_path("/a/.."), None);
    assert_eq!(extension_of_name("c.tar.gz"), Some("gz".to_string()));
    assert_eq!(extension_of_name(".bashrc"), None);
    assert_eq!(extension_of_name("noext"), None);
    assert_eq!(extension_of_name("dot."), Some("".to_string()));
}

#[test]
fn parent_of_paths() {
    assert_eq!(parent_of_path("/a/b/c.jpg"), Some("/a/b".to_string()));
    assert_eq!(parent_of_path("/a"), Some("/".to_string()));
    assert_eq!(parent_of_path("/"), None);
    assert_eq!(parent_of_path("a"), Some("".to_string()));
}

#[test]
fn output_file_names() {
    assert_eq!(output_file_name_of("/a/b/c.jpg", "_c", "png"), "c_c.png");
    assert_eq!(output_file_name_of("/a/b/c.jpg", "_c", "original"), "c_c.jpg");
    assert_eq!(output_file_name_of("/a/b/c", "", "original"), "c");
    assert_eq!(output_file_name_of("/a/b/c.jpg", "", "original"), "c.jpg");
}

#[test]
fn output_path_preserves_structure() {
    let r = compute_output_full_path("/out", "/a/b/c.jpg", "/a", true, "_c", "png");
    let (dir, name) = r.unwrap();
    assert_eq!(format!("{}/{}", dir, name), "/out/b/c_c.png");
}

#[test]
fn output_path_flat() {
    let r = compute_output_full_path("/out", "/a/b/c.jpg", "/a", false, "", "original");
    assert_eq!(r, Some(("/out".to_string(), "c.jpg".to_string())));
}

#[test]
fn output_path_outside_base_fails() {
    assert_eq!(compute_output_full_path("/out", "/z/c.jpg", "/a", true, "", "png"), None);
}

#[test]
fn mirror_directory_cases() {
    assert_eq!(mirror_directory("/out", "/a/b/c", "/a"), Some("/out/b/c".to_string()));
    assert_eq!(mirror_directory("/out", "/a", "/a"), Some("/out".to_string()));
    assert_eq!(mirror_directory("/out", "/a/b", "/x"), None);
    assert_eq!(mirror_directory("/out", "/a/b", ""), Some("/a/b".to_string()));
}

#[test]
fn output_directory_same_folder_or_configured() {
    let same = options("/out", true, false, "", "original");
    assert_eq!(determine_output_directory("/a/b/c.jpg", &same), Some("/a/b".to_string()));
    let other = options("/out", false, false, "", "original");
    assert_eq!(determine_output_directory("/a/b/c.jpg", &other), Some("/out".to_string()));
    assert_eq!(determine_output_directory("/", &same), None);
}

#[test]
fn resolve_output_path_scenario() {
    let o = options("/out", false, true, "_c", "png");
    assert_eq!(resolve_output_path("/a/b/c.jpg", &o, "/a"), Some(("/out/b".to_string(), "c_c.png".to_string())));
}

#[test]
fn output_may_equal_source() {
    let o = options("/out", true, false, "", "original");
    assert_eq!(resolve_output_path("/a/b/c.jpg", &o, "/a"), Some(("/a/b".to_string(), "c.jpg".to_string())));
}

#[test]
fn resolve_output_path_same_folder_with_structure() {
    let o = options("/out", true, true, "_s", "webp");
    assert_eq!(resolve_output_path("/a/b/c.jpg", &o, "/a"), Some(("/a/b/b".to_string(), "c_s.webp".to_string())));
    assert_eq!(resolve_output_path("/z/c.jpg", &o, "/a"), None);
}

#[test]
fn relative_single_name_has_no_structure() {
    assert_eq!(compute_output_full_path("/out", "c.jpg", "/a", true, "", "png"), None);
}
