//! What happens to one entry in a compression: the codec settings drawn
//! from the options, the codec call, and the outcome recorded for each way
//! that the attempt can end.
use vstd::prelude::*;
use vstd::string::*;

use crate::image::{CImage, ImageStatus};
use crate::options::{OptionsPayload, ResizeOptions};
use crate::paths::{components, components_of, views};
use crate::scheduler::CompressionStatus;
use crate::text::text_is;
use caesium::parameters::CSParameters;

verus! {

/// Files above this many bytes are not attempted.
pub const MAX_FILE_SIZE: u64 = 500 * 1024 * 1024;

/// The outcome of an attempt and the entry as it stands after it.
#[derive(Clone, Debug)]
pub struct CompressionResult {
    pub status: CompressionStatus,
    pub cimage: CImage,
}

#[derive(Clone, Copy, Debug, PartialEq, Eq, Structural)]
pub enum ChromaChoice {
    CS444,
    CS422,
    CS420,
    CS411,
    Auto,
}

#[derive(Clone, Copy, Debug, PartialEq, Eq, Structural)]
pub enum TiffAlgorithm {
    Lzw,
    Deflate,
    Packbits,
    Uncompressed,
}

#[derive(Clone, Copy, Debug, PartialEq, Eq, Structural)]
pub enum TiffDeflate {
    Fast,
    Balanced,
    Best,
}

#[derive(Clone, Copy, Debug, PartialEq, Eq, Structural)]
pub enum ResizeMode {
    /// No resizing.
    Keep,
    Dimensions,
    Width,
    Height,
    LongEdge,
    ShortEdge,
    Percentage,
}

#[derive(Clone, Copy, Debug, PartialEq, Eq, Structural)]
pub enum TargetFormat {
    Jpeg,
    Png,
    WebP,
    Tiff,
    Unknown,
}

/// The codec settings for one entry. A width or height of 0 leaves that
/// dimension to the codec, which keeps the aspect ratio.
#[derive(Clone, Copy, Debug, PartialEq, Eq, Structural)]
pub struct CodecSettings {
    pub keep_metadata: bool,
    pub optimize: bool,
    pub width: u32,
    pub height: u32,
    pub jpeg_quality: u32,
    pub jpeg_chroma: ChromaChoice,
    pub png_quality: u32,
    pub png_optimization_level: u8,
    pub png_force_zopfli: bool,
    pub webp_quality: u32,
    pub tiff_algorithm: TiffAlgorithm,
    pub tiff_deflate_level: TiffDeflate,
}

/// How the codec is to be called.
#[derive(Clone, Copy, Debug, PartialEq, Eq, Structural)]
pub enum CodecRequest {
    /// Aim at an output of at most this many bytes.
    ToSize(usize),
    /// Encode at the configured qualities.
    Quality,
}

/// What the caller does with the files after an attempt that reached the
/// codec.
#[derive(Clone, Copy, Debug, PartialEq, Eq, Structural)]
pub enum OutputAction {
    Nothing,
    /// Copy the source to the destination, which therefore holds a file.
    CopyOriginal,
    /// Write the encoded bytes; then keep the source's dates and move the
    /// source to the trash where asked.
    WriteEncoded { keep_dates: bool, trash_original: bool },
}

pub open spec fn chroma_of(s: Seq<char>) -> ChromaChoice {
    if s == "4:4:4"@ {
        ChromaChoice::CS444
    } else if s == "4:2:2"@ {
        ChromaChoice::CS422
    } else if s == "4:2:0"@ {
        ChromaChoice::CS420
    } else if s == "4:1:1"@ {
        ChromaChoice::CS411
    } else {
        ChromaChoice::Auto
    }
}

pub open spec fn tiff_algorithm_of(s: Seq<char>) -> TiffAlgorithm {
    if s == "lzw"@ {
        TiffAlgorithm::Lzw
    } else if s == "deflate"@ {
        TiffAlgorithm::Deflate
    } else if s == "packbits"@ {
        TiffAlgorithm::Packbits
    } else {
        TiffAlgorithm::Uncompressed
    }
}

pub open spec fn tiff_deflate_of(level: u32) -> TiffDeflate {
    if level == 1 {
        TiffDeflate::Fast
    } else if level == 9 {
        TiffDeflate::Best
    } else {
        TiffDeflate::Balanced
    }
}

pub open spec fn resize_mode_of(s: Seq<char>) -> ResizeMode {
    if s == "dimensions"@ {
        ResizeMode::Dimensions
    } else if s == "width"@ {
        ResizeMode::Width
    } else if s == "height"@ {
        ResizeMode::Height
    } else if s == "long_edge"@ {
        ResizeMode::LongEdge
    } else if s == "short_edge"@ {
        ResizeMode::ShortEdge
    } else if s == "percentage"@ {
        ResizeMode::Percentage
    } else {
        ResizeMode::Keep
    }
}

pub open spec fn target_format_of(s: Seq<char>) -> TargetFormat {
    if s == "jpg"@ {
        TargetFormat::Jpeg
    } else if s == "png"@ {
        TargetFormat::Png
    } else if s == "webp"@ {
        TargetFormat::WebP
    } else if s == "tiff"@ {
        TargetFormat::Tiff
    } else {
        TargetFormat::Unknown
    }
}

/// `percent` of `d`, rounded down, saturating at the largest `u32`.
pub open spec fn percent_of(percent: u32, d: usize) -> u32 {
    let v = percent * d / 100;
    if v > u32::MAX {
        u32::MAX
    } else {
        v as u32
    }
}

/// The target width and height for an image of `w` by `h` pixels.
pub open spec fn resize_dims(o: ResizeOptions, w: usize, h: usize) -> (u32, u32) {
    if !o.resize_enabled {
        (0, 0)
    } else {
        match resize_mode_of(o.resize_mode@) {
            ResizeMode::Keep => (0, 0),
            ResizeMode::Dimensions => (o.width, o.height),
            ResizeMode::Percentage => (percent_of(o.width_percentage, w), percent_of(o.height_percentage, h)),
            ResizeMode::ShortEdge => if w > h {
                (0, o.short_edge)
            } else {
                (o.short_edge, 0)
            },
            ResizeMode::LongEdge => if w > h {
                (o.long_edge, 0)
            } else {
                (0, o.long_edge)
            },
            ResizeMode::Width => (o.width, 0),
            ResizeMode::Height => (0, o.height),
        }
    }
}

/// The JPEG chroma subsampling that `s` names; `Auto` for anything else.
pub fn parse_jpeg_chroma_subsampling(s: &str) -> (r: ChromaChoice)
    ensures
        r == chroma_of(s@),
{
    if text_is(s, "4:4:4") {
        ChromaChoice::CS444
    } else if text_is(s, "4:2:2") {
        ChromaChoice::CS422
    } else if text_is(s, "4:2:0") {
        ChromaChoice::CS420
    } else if text_is(s, "4:1:1") {
        ChromaChoice::CS411
    } else {
        ChromaChoice::Auto
    }
}

/// The TIFF compression that `s` names; none for anything else.
pub fn parse_tiff_algorithm(s: &str) -> (r: TiffAlgorithm)
    ensures
        r == tiff_algorithm_of(s@),
{
    if text_is(s, "lzw") {
        TiffAlgorithm::Lzw
    } else if text_is(s, "deflate") {
        TiffAlgorithm::Deflate
    } else if text_is(s, "packbits") {
        TiffAlgorithm::Packbits
    } else {
        TiffAlgorithm::Uncompressed
    }
}

/// The resize mode that `s` names; `Keep` for anything else.
pub fn parse_resize_mode(s: &str) -> (r: ResizeMode)
    ensures
        r == resize_mode_of(s@),
{
    if text_is(s, "dimensions") {
        ResizeMode::Dimensions
    } else if text_is(s, "width") {
        ResizeMode::Width
    } else if text_is(s, "height") {
        ResizeMode::Height
    } else if text_is(s, "long_edge") {
        ResizeMode::LongEdge
    } else if text_is(s, "short_edge") {
        ResizeMode::ShortEdge
    } else if text_is(s, "percentage") {
        ResizeMode::Percentage
    } else {
        ResizeMode::Keep
    }
}

/// The output format that `s` names.
pub fn map_supported_formats(s: &str) -> (r: TargetFormat)
    ensures
        r == target_format_of(s@),
{
    if text_is(s, "jpg") {
        TargetFormat::Jpeg
    } else if text_is(s, "png") {
        TargetFormat::Png
    } else if text_is(s, "webp") {
        TargetFormat::WebP
    } else if text_is(s, "tiff") {
        TargetFormat::Tiff
    } else {
        TargetFormat::Unknown
    }
}

fn percent(p: u32, d: usize) -> (r: u32)
    ensures
        r == percent_of(p, d),
{
    proof {
        let m = u64::MAX as int;
        assert((p as int) * (d as int) <= m * m) by (nonlinear_arith)
            requires
                0 <= p <= m,
                0 <= d <= m,
        ;
    }
    let v = (p as u128) * (d as u128) / 100;
    if v > u32::MAX as u128 {
        u32::MAX
    } else {
        v as u32
    }
}

/// The target width and height for an image of `width` by `height`
/// pixels (see [`resize_dims`]).
pub fn resize_target(o: &ResizeOptions, width: usize, height: usize) -> (r: (u32, u32))
    ensures
        r == resize_dims(*o, width, height),
{
    if !o.resize_enabled {
        return (0, 0);
    }
    match parse_resize_mode(o.resize_mode.as_str()) {
        ResizeMode::Keep => (0, 0),
        ResizeMode::Dimensions => (o.width, o.height),
        ResizeMode::Percentage => (percent(o.width_percentage, width), percent(o.height_percentage, height)),
        ResizeMode::ShortEdge => if width > height {
            (0, o.short_edge)
        } else {
            (o.short_edge, 0)
        },
        ResizeMode::LongEdge => if width > height {
            (o.long_edge, 0)
        } else {
            (0, o.long_edge)
        },
        ResizeMode::Width => (o.width, 0),
        ResizeMode::Height => (0, o.height),
    }
}

/// The codec settings for `cimage` under `options`.
pub fn parse_compression_options(options: &OptionsPayload, cimage: &CImage) -> (r: CodecSettings)
    ensures
        r.keep_metadata == options.compression_options.keep_metadata,
        r.optimize == options.compression_options.lossless,
        (r.width, r.height) == resize_dims(options.resize_options, cimage.width, cimage.height),
        r.jpeg_quality == options.compression_options.jpeg.quality,
        r.jpeg_chroma == chroma_of(options.compression_options.jpeg.chroma_subsampling@),
        r.png_quality == options.compression_options.png.quality,
        r.png_optimization_level == options.compression_options.png.optimization_level % 256,
        !r.png_force_zopfli,
        r.webp_quality == options.compression_options.webp.quality,
        r.tiff_algorithm == tiff_algorithm_of(options.compression_options.tiff.method@),
        r.tiff_deflate_level == tiff_deflate_of(options.compression_options.tiff.deflate_level),
{
    let c = &options.compression_options;
    let (width, height) = resize_target(&options.resize_options, cimage.width, cimage.height);
    let level = c.tiff.deflate_level;
    CodecSettings {
        keep_metadata: c.keep_metadata,
        optimize: c.lossless,
        width,
        height,
        jpeg_quality: c.jpeg.quality,
        jpeg_chroma: parse_jpeg_chroma_subsampling(c.jpeg.chroma_subsampling.as_str()),
        png_quality: c.png.quality,
        png_optimization_level: (c.png.optimization_level % 256) as u8,
        png_force_zopfli: false,
        webp_quality: c.webp.quality,
        tiff_algorithm: parse_tiff_algorithm(c.tiff.method.as_str()),
        tiff_deflate_level: if level == 1 {
            TiffDeflate::Fast
        } else if level == 9 {
            TiffDeflate::Best
        } else {
            TiffDeflate::Balanced
        },
    }
}

/// The largest target size that the codec accepts.
pub const MAX_TARGET_SIZE: usize = usize::MAX / 2;

/// How the codec is called: towards the configured size (value times unit,
/// capped at [`MAX_TARGET_SIZE`]) in mode 1, at the configured qualities
/// otherwise.
pub fn codec_request(options: &OptionsPayload) -> (r: CodecRequest)
    ensures
        options.compression_options.compression_mode == 1 ==> r == CodecRequest::ToSize(
            if options.compression_options.max_size_value * options.compression_options.max_size_unit
                > MAX_TARGET_SIZE {
                MAX_TARGET_SIZE
            } else {
                (options.compression_options.max_size_value * options.compression_options.max_size_unit) as usize
            },
        ),
        options.compression_options.compression_mode != 1 ==> r == CodecRequest::Quality,
{
    let c = &options.compression_options;
    if c.compression_mode == 1 {
        let max = match c.max_size_value.checked_mul(c.max_size_unit) {
            Some(m) => if m > MAX_TARGET_SIZE {
                MAX_TARGET_SIZE
            } else {
                m
            },
            None => MAX_TARGET_SIZE,
        };
        CodecRequest::ToSize(max)
    } else {
        CodecRequest::Quality
    }
}

#[verifier::external_type_specification]
#[verifier::external_body]
pub struct ExCSParameters(CSParameters);

/// Relies on caesium::compress_in_memory: encodes the image in `input` under
/// `parameters`; `None` where the codec fails. Nothing is stated of the
/// bytes.
#[verifier::external_body]
fn codec_compress(input: Vec<u8>, parameters: &CSParameters) -> (r: Option<Vec<u8>>) {
    caesium::compress_in_memory(input, parameters).ok()
}

/// Relies on caesium::compress_to_size_in_memory: encodes the image in
/// `input` aiming at `max_output_size` bytes, keeping the smallest output
/// where the aim is missed; `None` where the codec fails. Nothing is stated
/// of the bytes. The codec doubles the target size in its arithmetic, so
/// the target stays within [`MAX_TARGET_SIZE`].
#[verifier::external_body]
fn codec_compress_to_size(input: Vec<u8>, parameters: &mut CSParameters, max_output_size: usize) -> (r: Option<Vec<u8>>)
    requires
        max_output_size <= MAX_TARGET_SIZE,
{
    caesium::compress_to_size_in_memory(input, parameters, max_output_size, true).ok()
}

/// Runs the codec on the bytes of a source file as [`codec_request`]
/// says; `None` where the codec fails.
pub fn perform_image_compression(input: Vec<u8>, options: &OptionsPayload, parameters: &mut CSParameters) -> (r: Option<Vec<u8>>) {
    match codec_request(options) {
        CodecRequest::ToSize(max) => codec_compress_to_size(input, parameters, max),
        CodecRequest::Quality => codec_compress(input, parameters),
    }
}

/// `r` describes the same source file as `c`.
pub open spec fn same_source(r: CImage, c: CImage) -> bool {
    &&& r.id == c.id
    &&& r.name == c.name
    &&& r.path == c.path
    &&& r.directory == c.directory
    &&& r.mime_type == c.mime_type
    &&& r.size == c.size
    &&& r.width == c.width
    &&& r.height == c.height
}

/// `r` is `c` with only its status and its note changed.
pub open spec fn marked(r: CImage, c: CImage, status: ImageStatus, info: Seq<char>) -> bool {
    &&& same_source(r, c)
    &&& r.compressed_width == c.compressed_width
    &&& r.compressed_height == c.compressed_height
    &&& r.compressed_size == c.compressed_size
    &&& r.compressed_file_path == c.compressed_file_path
    &&& r.status == status
    &&& r.info@ == info
}

/// `r` is `c` left as it was, with `path` as its destination and `info` as
/// its note, after a skipped attempt.
pub open spec fn kept_original(r: CImage, c: CImage, path: Seq<char>, info: Seq<char>) -> bool {
    &&& same_source(r, c)
    &&& r.compressed_width == c.width
    &&& r.compressed_height == c.height
    &&& r.compressed_size == c.size
    &&& r.compressed_file_path@ == path
    &&& r.status == ImageStatus::Warning
    &&& r.info@ == info
}

fn with_status(c: &CImage, status: ImageStatus, info: String) -> (r: CImage)
    ensures
        marked(r, *c, status, info@),
{
    let mut r = c.duplicate();
    r.status = status;
    r.info = info;
    r
}

/// The entry announced while its compression is under way.
pub fn compressing_result(cimage: &CImage) -> (r: CompressionResult)
    ensures
        r.status == CompressionStatus::Warning,
        marked(r.cimage, *cimage, ImageStatus::Compressing, cimage.info@),
{
    let info = cimage.info.clone();
    CompressionResult { status: CompressionStatus::Warning, cimage: with_status(cimage, ImageStatus::Compressing, info) }
}

/// The error for a file above [`MAX_FILE_SIZE`]; `None` for any other.
pub fn oversize_result(cimage: &CImage) -> (r: Option<CompressionResult>)
    ensures
        r is Some <==> cimage.size > MAX_FILE_SIZE,
        r matches Some(x) ==> x.status == CompressionStatus::Error && marked(x.cimage, *cimage,
            ImageStatus::Error, "File exceeds max size of 524288000"@),
{
    if cimage.size > MAX_FILE_SIZE {
        let info = "File exceeds max size of 524288000".to_owned();
        Some(CompressionResult { status: CompressionStatus::Error, cimage: with_status(cimage, ImageStatus::Error, info) })
    } else {
        None
    }
}

/// The error for a file whose destination could not be resolved.
pub fn output_path_error(cimage: &CImage) -> (r: CompressionResult)
    ensures
        r.status == CompressionStatus::Error,
        marked(r.cimage, *cimage, ImageStatus::Error, "Error computing output path"@),
{
    let info = "Error computing output path".to_owned();
    CompressionResult { status: CompressionStatus::Error, cimage: with_status(cimage, ImageStatus::Error, info) }
}

/// The error for a file that the codec could not encode.
pub fn encode_error(cimage: &CImage) -> (r: CompressionResult)
    ensures
        r.status == CompressionStatus::Error,
        marked(r.cimage, *cimage, ImageStatus::Error, "Error while compressing"@),
{
    let info = "Error while compressing".to_owned();
    CompressionResult { status: CompressionStatus::Error, cimage: with_status(cimage, ImageStatus::Error, info) }
}

/// Whether `settings` would make `cimage` larger than it is although
/// `options` forbid it.
pub fn would_enlarge(options: &OptionsPayload, settings: &CodecSettings, cimage: &CImage) -> (r: bool)
    ensures
        r == (options.resize_options.do_not_enlarge && (settings.width > cimage.width
            || settings.height > cimage.height)),
{
    options.resize_options.do_not_enlarge && ((settings.width as u64) > (cimage.width as u64)
        || (settings.height as u64) > (cimage.height as u64))
}

/// The warning for a file that the settings would enlarge against the
/// options; `None` when they do not. `output_path` is recorded for
/// reference.
pub fn enlarge_guard(cimage: &CImage, options: &OptionsPayload, settings: &CodecSettings, output_path: &str) -> (r: Option<CompressionResult>)
    ensures
        r is Some <==> (options.resize_options.do_not_enlarge && (settings.width > cimage.width
            || settings.height > cimage.height)),
        r matches Some(x) ==> x.status == CompressionStatus::Warning && kept_original(x.cimage, *cimage,
            output_path@, "Cannot resize over original dimensions, skipping"@),
{
    if !would_enlarge(options, settings, cimage) {
        return None;
    }
    let mut c = with_status(cimage, ImageStatus::Warning, "Cannot resize over original dimensions, skipping".to_owned());
    c.compressed_width = cimage.width;
    c.compressed_height = cimage.height;
    c.compressed_size = cimage.size;
    c.compressed_file_path = output_path.to_owned();
    Some(CompressionResult { status: CompressionStatus::Warning, cimage: c })
}

fn same_components(a: &Vec<String>, b: &Vec<String>) -> (r: bool)
    ensures
        r == (views(a@) == views(b@)),
{
    if a.len() != b.len() {
        return false;
    }
    let mut i: usize = 0;
    while i < a.len()
        invariant
            a@.len() == b@.len(),
            i <= a@.len(),
            forall|j: int| 0 <= j < i ==> views(a@)[j] == views(b@)[j],
        decreases a@.len() - i,
    {
        if a[i] != b[i] {
            assert(views(a@)[i as int] != views(b@)[i as int]);
            return false;
        }
        i = i + 1;
    }
    assert(views(a@) =~= views(b@));
    true
}

/// The outcome once the codec produced `encoded_size` bytes for `cimage`,
/// to go to `output_path`, the output being `new_width` by `new_height`.
/// When the options ask to skip outputs that are not smaller and this one
/// is not, the entry keeps its own figures with a warning, and the source
/// is copied to the destination unless both are the same path. Otherwise
/// the entry takes the new figures and the encoded bytes are written.
pub fn encoded_outcome(
    cimage: &CImage,
    options: &OptionsPayload,
    output_path: &str,
    encoded_size: u64,
    new_width: usize,
    new_height: usize,
) -> (r: (CompressionResult, OutputAction))
    ensures
        options.output_options.skip_if_output_is_bigger && encoded_size >= cimage.size ==> {
            &&& r.0.status == CompressionStatus::Warning
            &&& kept_original(r.0.cimage, *cimage, output_path@, "Compressed file is bigger, skipping"@)
            &&& r.1 == (if components(cimage.path@) == components(output_path@) {
                OutputAction::Nothing
            } else {
                OutputAction::CopyOriginal
            })
        },
        !(options.output_options.skip_if_output_is_bigger && encoded_size >= cimage.size) ==> {
            &&& r.0.status == CompressionStatus::Success
            &&& same_source(r.0.cimage, *cimage)
            &&& r.0.cimage.compressed_width == new_width
            &&& r.0.cimage.compressed_height == new_height
            &&& r.0.cimage.compressed_size == encoded_size
            &&& r.0.cimage.compressed_file_path@ == output_path@
            &&& r.0.cimage.info@.len() == 0
            &&& r.0.cimage.status == ImageStatus::Success
            &&& r.1 == OutputAction::WriteEncoded {
                keep_dates: options.output_options.keep_file_dates_enabled,
                trash_original: options.output_options.move_original_file_enabled
                    && options.output_options.move_original_file_mode@ == "trash"@,
            }
        },
{
    let o = &options.output_options;
    if o.skip_if_output_is_bigger && encoded_size >= cimage.size {
        let mut c = with_status(cimage, ImageStatus::Warning, "Compressed file is bigger, skipping".to_owned());
        c.compressed_width = cimage.width;
        c.compressed_height = cimage.height;
        c.compressed_size = cimage.size;
        c.compressed_file_path = output_path.to_owned();
        let src = components_of(cimage.path.as_str());
        let dst = components_of(output_path);
        let action = if same_components(&src, &dst) {
            OutputAction::Nothing
        } else {
            OutputAction::CopyOriginal
        };
        return (CompressionResult { status: CompressionStatus::Warning, cimage: c }, action);
    }
    let mut c = with_status(cimage, ImageStatus::Success, String::new());
    c.compressed_width = new_width;
    c.compressed_height = new_height;
    c.compressed_size = encoded_size;
    c.compressed_file_path = output_path.to_owned();
    let trash = o.move_original_file_enabled && text_is(o.move_original_file_mode.as_str(), "trash");
    (
        CompressionResult { status: CompressionStatus::Success, cimage: c },
        OutputAction::WriteEncoded { keep_dates: o.keep_file_dates_enabled, trash_original: trash },
    )
}

/// The outcome of a preview written to `output_path`: an error, with the
/// note left as it was, when the codec failed; otherwise the new figures.
pub fn preview_outcome(
    cimage: &CImage,
    output_path: &str,
    produced_size: Option<u64>,
    new_width: usize,
    new_height: usize,
) -> (r: CompressionResult)
    ensures
        produced_size is None ==> r.status == CompressionStatus::Error && marked(r.cimage, *cimage,
            ImageStatus::Error, cimage.info@),
        produced_size matches Some(n) ==> {
            &&& r.status == CompressionStatus::Success
            &&& same_source(r.cimage, *cimage)
            &&& r.cimage.compressed_width == new_width
            &&& r.cimage.compressed_height == new_height
            &&& r.cimage.compressed_size == n
            &&& r.cimage.compressed_file_path@ == output_path@
            &&& r.cimage.info@.len() == 0
            &&& r.cimage.status == ImageStatus::Success
        },
{
    match produced_size {
        None => {
            let info = cimage.info.clone();
            CompressionResult { status: CompressionStatus::Error, cimage: with_status(cimage, ImageStatus::Error, info) }
        },
        Some(n) => {
            let mut c = with_status(cimage, ImageStatus::Success, String::new());
            c.compressed_width = new_width;
            c.compressed_height = new_height;
            c.compressed_size = n;
            c.compressed_file_path = output_path.to_owned();
            CompressionResult { status: CompressionStatus::Success, cimage: c }
        },
    }
}

/// The warning of a preview that the settings would enlarge against the
/// options, as for a compression (see [`enlarge_guard`]), with the preview's
/// scratch path recorded; `None` when they do not.
pub fn preview_enlarge_guard(cimage: &CImage, options: &OptionsPayload, settings: &CodecSettings, output_path: &str) -> (r: Option<CompressionResult>)
    ensures
        r is Some <==> (options.resize_options.do_not_enlarge && (settings.width > cimage.width
            || settings.height > cimage.height)),
        r matches Some(x) ==> x.status == CompressionStatus::Warning && kept_original(x.cimage, *cimage,
            output_path@, "Cannot resize over original dimensions, skipping"@),
{
    enlarge_guard(cimage, options, settings, output_path)
}

/// The size that an encoded image declares in its header, if it can be read.
pub uninterp spec fn dimensions_of(encoded: Seq<u8>) -> Option<(usize, usize)>;

/// Relies on imagesize::blob_size: the width and height read from the
/// header of an encoded image, a function of its bytes alone; `None` where
/// the header cannot be read.
#[verifier::external_body]
fn image_dimensions(encoded: &[u8]) -> (r: Option<(usize, usize)>)
    ensures
        r == dimensions_of(encoded@),
{
    match imagesize::blob_size(encoded) {
        Ok(s) => Some((s.width, s.height)),
        Err(_) => None,
    }
}

/// The width and height recorded for an output: the entry's own when
/// resizing is off or the output's size cannot be read, and the output's
/// (`measured`) otherwise.
pub fn choose_dimensions(cimage: &CImage, options: &OptionsPayload, measured: Option<(usize, usize)>) -> (r: (
    usize,
    usize,
))
    ensures
        r == (if options.resize_options.resize_enabled && measured is Some {
            measured.unwrap()
        } else {
            (cimage.width, cimage.height)
        }),
{
    if options.resize_options.resize_enabled {
        if let Some(d) = measured {
            return d;
        }
    }
    (cimage.width, cimage.height)
}

/// The width and height recorded for the encoded output `encoded` of
/// `cimage` (see [`choose_dimensions`]).
pub fn output_dimensions(cimage: &CImage, options: &OptionsPayload, encoded: &Vec<u8>) -> (r: (usize, usize))
    ensures
        !options.resize_options.resize_enabled ==> r == (cimage.width, cimage.height),
        options.resize_options.resize_enabled ==> r == (match dimensions_of(encoded@) {
            Some(d) => d,
            None => (cimage.width, cimage.height),
        }),
{
    let measured = if options.resize_options.resize_enabled {
        image_dimensions(encoded.as_slice())
    } else {
        None
    };
    choose_dimensions(cimage, options, measured)
}

} // verus!
