use caesium_catalog::compress::{
    codec_request, compressing_result, encode_error, encoded_outcome, enlarge_guard, map_supported_formats,
    oversize_result, output_path_error, parse_compression_options, parse_jpeg_chroma_subsampling,
    parse_resize_mode, parse_tiff_algorithm, preview_enlarge_guard, preview_outcome, resize_target,
    ChromaChoice, CodecRequest, OutputAction, ResizeMode, TargetFormat, TiffAlgorithm, TiffDeflate, MAX_FILE_SIZE,
};
use caesium_catalog::image::{CImage, ImageStatus};
use caesium_catalog::options::{
    CompressionOptions, JPEGOptions, OptionsPayload, OutputOptions, PNGOptions, ResizeOptions, TIFFOptions,
    WebPOptions,
};
use caesium_catalog::scheduler::CompressionStatus;

fn image(size: u64, width: usize, height: usize) -> CImage {
    CImage {
        id: "id".to_string(),
        name: "c.jpg".to_string(),
        path: "/a/b/c.jpg".to_string(),
        directory: "/a/b".to_string(),
        mime_type: "image/jpeg".to_string(),
        size,
        width,
        height,
        compressed_width: 0,
        compressed_height: 0,
        compressed_size: 0,
        compressed_file_path: String::new(),
        info: "old".to_string(),
        status: ImageStatus::New,
    }
}

fn resize(enabled: bool, mode: &str) -> ResizeOptions {
    ResizeOptions {
        resize_enabled: enabled,
        resize_mode: mode.to_string(),
        keep_aspect_ratio: true,
        do_not_enlarge: true,
        width: 800,
        height: 600,
        width_percentage: 50,
        height_percentage: 25,
        long_edge: 1000,
        short_edge: 300,
    }
}

fn options() -> OptionsPayload {
    OptionsPayload {
        compression_options: CompressionOptions {
            jpeg: JPEGOptions { quality: 80, chroma_subsampling: "4:2:0".to_string(), progressive: true },
            png: PNGOptions { quality: 70, optimization_level: 259 },
            webp: WebPOptions { quality: 60 },
            tiff: TIFFOptions { method: "lzw".to_string(), deflate_level: 9 },
            compression_mode: 0,
            keep_metadata: true,
            lossless: true,
            max_size_value: 500,
            max_size_unit: 1024,
        },
        resize_options: resize(false, "none"),
        output_options: OutputOptions {
            output_folder: "/out".to_string(),
            same_folder_as_input: false,
            keep_folder_structure: false,
            skip_if_output_is_bigger: true,
            move_original_file_enabled: true,
            move_original_file_mode: "trash".to_string(),
            keep_file_dates_enabled: true,
            keep_creation_date: false,
            keep_last_modified_date: true,
            keep_last_access_date: false,
            output_format: "original".to_string(),
            suffix: String::new(),
        },
    }
}

#[test]
fn option_names() {
    assert_eq!(parse_jpeg_chroma_subsampling("4:4:4"), ChromaChoice::CS444);
    assert_eq!(parse_jpeg_chroma_subsampling("4:2:2"), ChromaChoice::CS422);
    assert_eq!(parse_jpeg_chroma_subsampling("4:1:1"), ChromaChoice::CS411);
    assert_eq!(parse_jpeg_chroma_subsampling("x"), ChromaChoice::Auto);
    assert_eq!(parse_tiff_algorithm("deflate"), TiffAlgorithm::Deflate);
    assert_eq!(parse_tiff_algorithm("packbits"), TiffAlgorithm::Packbits);
    assert_eq!(parse_tiff_algorithm("zip"), TiffAlgorithm::Uncompressed);
    assert_eq!(parse_resize_mode("long_edge"), ResizeMode::LongEdge);
    assert_eq!(parse_resize_mode("none"), ResizeMode::Keep);
    assert_eq!(map_supported_formats("webp"), TargetFormat::WebP);
    assert_eq!(map_supported_formats("jpg"), TargetFormat::Jpeg);
    assert_eq!(map_supported_formats("bmp"), TargetFormat::Unknown);
}

#[test]
fn resize_targets() {
    assert_eq!(resize_target(&resize(false, "dimensions"), 2000, 1000), (0, 0));
    assert_eq!(resize_target(&resize(true, "dimensions"), 2000, 1000), (800, 600));
    assert_eq!(resize_target(&resize(true, "width"), 2000, 1000), (800, 0));
    assert_eq!(resize_target(&resize(true, "height"), 2000, 1000), (0, 600));
    assert_eq!(resize_target(&resize(true, "long_edge"), 2000, 1000), (1000, 0));
    assert_eq!(resize_target(&resize(true, "long_edge"), 1000, 2000), (0, 1000));
    assert_eq!(resize_target(&resize(true, "short_edge"), 2000, 1000), (0, 300));
    assert_eq!(resize_target(&resize(true, "short_edge"), 1000, 2000), (300, 0));
    assert_eq!(resize_target(&resize(true, "percentage"), 2001, 1000), (1000, 250));
    assert_eq!(resize_target(&resize(true, "bogus"), 2000, 1000), (0, 0));
}

#[test]
fn codec_settings_from_options() {
    let o = options();
    let s = parse_compression_options(&o, &image(10, 100, 100));
    assert!(s.keep_metadata);
    assert!(s.optimize);
    assert_eq!((s.width, s.height), (0, 0));
    assert_eq!(s.jpeg_quality, 80);
    assert_eq!(s.jpeg_chroma, ChromaChoice::CS420);
    assert_eq!(s.png_quality, 70);
    assert_eq!(s.png_optimization_level, 3);
    assert!(!s.png_force_zopfli);
    assert_eq!(s.webp_quality, 60);
    assert_eq!(s.tiff_algorithm, TiffAlgorithm::Lzw);
    assert_eq!(s.tiff_deflate_level, TiffDeflate::Best);
}

#[test]
fn codec_request_modes() {
    let mut o = options();
    assert_eq!(codec_request(&o), CodecRequest::Quality);
    o.compression_options.compression_mode = 1;
    assert_eq!(codec_request(&o), CodecRequest::ToSize(512000));
    o.compression_options.max_size_value = usize::MAX;
    assert_eq!(codec_request(&o), CodecRequest::ToSize(usize::MAX / 2));
    o.compression_options.max_size_value = usize::MAX / 1024;
    assert_eq!(codec_request(&o), CodecRequest::ToSize(usize::MAX / 2));
}

#[test]
fn oversize_is_an_error() {
    assert_eq!(MAX_FILE_SIZE, 524288000);
    assert!(oversize_result(&image(MAX_FILE_SIZE, 1, 1)).is_none());
    let r = oversize_result(&image(MAX_FILE_SIZE + 1, 1, 1)).unwrap();
    assert_eq!(r.status, CompressionStatus::Error);
    assert_eq!(r.cimage.status, ImageStatus::Error);
    assert_eq!(r.cimage.info, "File exceeds max size of 524288000");
}

#[test]
fn error_results() {
    let c = image(10, 1, 1);
    let r = output_path_error(&c);
    assert_eq!(r.status, CompressionStatus::Error);
    assert_eq!(r.cimage.info, "Error computing output path");
    let r = encode_error(&c);
    assert_eq!(r.cimage.info, "Error while compressing");
    assert_eq!(r.cimage.status, ImageStatus::Error);
    let r = compressing_result(&c);
    assert_eq!(r.cimage.status, ImageStatus::Compressing);
    assert_eq!(r.cimage.info, "old");
}

#[test]
fn enlarge_guard_warns() {
    let mut o = options();
    o.resize_options = resize(true, "dimensions");
    let c = image(10, 400, 300);
    let s = parse_compression_options(&o, &c);
    let r = enlarge_guard(&c, &o, &s, "/out/c.jpg").unwrap();
    assert_eq!(r.status, CompressionStatus::Warning);
    assert_eq!(r.cimage.compressed_width, 400);
    assert_eq!(r.cimage.compressed_height, 300);
    assert_eq!(r.cimage.compressed_size, 10);
    assert_eq!(r.cimage.compressed_file_path, "/out/c.jpg");
    assert_eq!(r.cimage.info, "Cannot resize over original dimensions, skipping");
    let big = image(10, 4000, 3000);
    let s = parse_compression_options(&o, &big);
    assert!(enlarge_guard(&big, &o, &s, "/out/c.jpg").is_none());
    let p = preview_enlarge_guard(&c, &o, &parse_compression_options(&o, &c), "/tmp/k").unwrap();
    assert_eq!(p.cimage.status, ImageStatus::Warning);
    assert_eq!(p.cimage.compressed_size, 10);
    assert_eq!((p.cimage.compressed_width, p.cimage.compressed_height), (400, 300));
    assert_eq!(p.cimage.compressed_file_path, "/tmp/k");
}

#[test]
fn bigger_output_is_skipped() {
    let o = options();
    let c = image(100, 10, 10);
    let (r, a) = encoded_outcome(&c, &o, "/out/c.jpg", 100, 5, 5);
    assert_eq!(r.status, CompressionStatus::Warning);
    assert_eq!(r.cimage.info, "Compressed file is bigger, skipping");
    assert_eq!(r.cimage.compressed_size, 100);
    assert_eq!(r.cimage.compressed_width, 10);
    assert_eq!(a, OutputAction::CopyOriginal);
    let (_, same) = encoded_outcome(&c, &o, "/a/b/c.jpg", 150, 5, 5);
    assert_eq!(same, OutputAction::Nothing);
}

#[test]
fn smaller_output_succeeds() {
    let o = options();
    let c = image(100, 10, 10);
    let (r, a) = encoded_outcome(&c, &o, "/out/c.jpg", 60, 5, 4);
    assert_eq!(r.status, CompressionStatus::Success);
    assert_eq!(r.cimage.status, ImageStatus::Success);
    assert_eq!(r.cimage.compressed_size, 60);
    assert_eq!((r.cimage.compressed_width, r.cimage.compressed_height), (5, 4));
    assert_eq!(r.cimage.info, "");
    assert_eq!(r.cimage.compressed_file_path, "/out/c.jpg");
    assert_eq!(a, OutputAction::WriteEncoded { keep_dates: true, trash_original: true });
    let mut keep = options();
    keep.output_options.skip_if_output_is_bigger = false;
    keep.output_options.move_original_file_mode = "move".to_string();
    let (r, a) = encoded_outcome(&c, &keep, "/out/c.jpg", 500, 5, 4);
    assert_eq!(r.status, CompressionStatus::Success);
    assert_eq!(a, OutputAction::WriteEncoded { keep_dates: true, trash_original: false });
}

#[test]
fn preview_outcomes() {
    let c = image(100, 10, 10);
    let r = preview_outcome(&c, "/tmp/x", None, 1, 1);
    assert_eq!(r.status, CompressionStatus::Error);
    assert_eq!(r.cimage.info, "old");
    let r = preview_outcome(&c, "/tmp/x", Some(42), 3, 2);
    assert_eq!(r.status, CompressionStatus::Success);
    assert_eq!(r.cimage.compressed_size, 42);
    assert_eq!(r.cimage.compressed_file_path, "/tmp/x");
}

#[test]
fn codec_rejects_non_images() {
    let mut o = options();
    let mut p = caesium::parameters::CSParameters::new();
    assert!(caesium_catalog::compress::perform_image_compression(vec![1, 2, 3, 4], &o, &mut p).is_none());
    o.compression_options.compression_mode = 1;
    assert!(caesium_catalog::compress::perform_image_compression(vec![1, 2, 3, 4], &o, &mut p).is_none());
}

#[test]
fn recorded_dimensions() {
    let mut o = options();
    let c = image(100, 10, 20);
    assert_eq!(caesium_catalog::compress::output_dimensions(&c, &o, &vec![1, 2, 3]), (10, 20));
    assert_eq!(caesium_catalog::compress::choose_dimensions(&c, &o, Some((3, 4))), (10, 20));
    o.resize_options.resize_enabled = true;
    assert_eq!(caesium_catalog::compress::choose_dimensions(&c, &o, Some((3, 4))), (3, 4));
    assert_eq!(caesium_catalog::compress::choose_dimensions(&c, &o, None), (10, 20));
    assert_eq!(caesium_catalog::compress::output_dimensions(&c, &o, &vec![1, 2, 3]), (10, 20));
    let gif = vec![b'G', b'I', b'F', b'8', b'9', b'a', 7, 0, 5, 0, 0, 0, 0];
    assert_eq!(caesium_catalog::compress::output_dimensions(&c, &o, &gif), (7, 5));
}
