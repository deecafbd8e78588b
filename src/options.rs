//! The configuration of a compression job, as the presentation layer sends it.
use vstd::prelude::*;

verus! {

#[derive(Clone, Debug)]
pub struct JPEGOptions {
    pub quality: u32,
    pub chroma_subsampling: String,
    pub progressive: bool,
}

#[derive(Clone, Debug)]
pub struct PNGOptions {
    pub quality: u32,
    pub optimization_level: u32,
}

#[derive(Clone, Debug)]
pub struct WebPOptions {
    pub quality: u32,
}

#[derive(Clone, Debug)]
pub struct TIFFOptions {
    pub method: String,
    pub deflate_level: u32,
}

#[derive(Clone, Debug)]
pub struct CompressionOptions {
    pub jpeg: JPEGOptions,
    pub png: PNGOptions,
    pub webp: WebPOptions,
    pub tiff: TIFFOptions,
    /// 1 asks for a target size, anything else for a quality.
    pub compression_mode: u32,
    pub keep_metadata: bool,
    pub lossless: bool,
    pub max_size_value: usize,
    pub max_size_unit: usize,
}

#[derive(Clone, Debug)]
pub struct ResizeOptions {
    pub resize_enabled: bool,
    pub resize_mode: String,
    pub keep_aspect_ratio: bool,
    pub do_not_enlarge: bool,
    pub width: u32,
    pub height: u32,
    pub width_percentage: u32,
    pub height_percentage: u32,
    pub long_edge: u32,
    pub short_edge: u32,
}

#[derive(Clone, Debug)]
pub struct OutputOptions {
    pub output_folder: String,
    pub same_folder_as_input: bool,
    pub keep_folder_structure: bool,
    pub skip_if_output_is_bigger: bool,
    pub move_original_file_enabled: bool,
    pub move_original_file_mode: String,
    pub keep_file_dates_enabled: bool,
    pub keep_creation_date: bool,
    pub keep_last_modified_date: bool,
    pub keep_last_access_date: bool,
    /// A target extension, or `original` to keep the source's.
    pub output_format: String,
    pub suffix: String,
}

#[derive(Clone, Debug)]
pub struct OptionsPayload {
    pub compression_options: CompressionOptions,
    pub resize_options: ResizeOptions,
    pub output_options: OutputOptions,
}

} // verus!
