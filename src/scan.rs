//! Import: which files are taken in, how a file becomes an entry, the base
//! folder of a scan, and the progress and result of an import.
use vstd::prelude::*;
use vstd::string::*;

use crate::app_data::{base_folder_from, AppData};
use crate::catalog::{records, sorted_by, upsert};
use crate::digest::{hex_lower, image_id, sha256_of};
use crate::image::{CImage, ImageStatus};
use crate::paths::{
    base_folder_after, components, compute_base_path, extension_of_name, is_absolute, file_name, file_name_of_path, join_path,
    name_extension, parent, parent_of_path, views,
};
use crate::text::text_is;
use regex::Regex;

verus! {

/// The progress of an import, in percent of `total` files.
pub struct FileImportProgress {
    pub progress: usize,
    pub total: usize,
}

/// The number of entries before and after an import.
pub struct ImportFinishedResult {
    pub original_list_length: usize,
    pub new_list_length: usize,
}

/// A page of the catalog as the presentation layer receives it.
pub struct FileList {
    pub files: Vec<CImage>,
    pub base_folder: String,
    pub total_files: usize,
}

/// A filter on file sizes in an advanced import.
#[derive(Clone, Debug)]
pub struct AdvancedImportDialogSizeFilter {
    pub enabled: bool,
    pub value: i32,
    pub unit: i32,
    /// `greater_than`, `equal_to` or `less_than`.
    pub pattern: String,
}

/// The filter of an advanced import: a pattern on file names and a size
/// filter.
#[derive(Clone, Debug)]
pub struct AdvancedImportDialogFilter {
    pub pattern: String,
    pub size: AdvancedImportDialogSizeFilter,
}

/// The code of `c` with ASCII capitals taken to small letters.
pub open spec fn lower_code(c: char) -> u32 {
    if 'A' <= c && c <= 'Z' {
        (c as u32 + 32) as u32
    } else {
        c as u32
    }
}

/// Two texts that differ at most in the case of ASCII letters.
pub open spec fn same_ignoring_ascii_case(a: Seq<char>, b: Seq<char>) -> bool {
    a.len() == b.len() && forall|i: int| 0 <= i < a.len() ==> lower_code(a[i]) == lower_code(b[i])
}

/// Whether `ext` is `tif` or `tiff`, ignoring ASCII case.
pub open spec fn is_tiff_extension(ext: Seq<char>) -> bool {
    same_ignoring_ascii_case(ext, "tif"@) || same_ignoring_ascii_case(ext, "tiff"@)
}

/// The media types that the catalog takes in; a TIFF file must also carry
/// a TIFF extension.
pub open spec fn supported_type(path: Seq<char>, mime: Seq<char>) -> bool {
    if mime == "image/tiff"@ {
        match file_name(components(path)) {
            Some(n) => match name_extension(n) {
                Some(e) => is_tiff_extension(e),
                None => false,
            },
            None => false,
        }
    } else {
        mime == "image/jpeg"@ || mime == "image/png"@ || mime == "image/gif"@ || mime == "image/webp"@
    }
}

fn char_lower_code(c: char) -> (r: u32)
    ensures
        r == lower_code(c),
{
    if 'A' <= c && c <= 'Z' {
        c as u32 + 32
    } else {
        c as u32
    }
}

fn text_is_ignoring_ascii_case(a: &str, b: &str) -> (r: bool)
    ensures
        r == same_ignoring_ascii_case(a@, b@),
{
    let n = a.unicode_len();
    if n != b.unicode_len() {
        return false;
    }
    let mut i: usize = 0;
    while i < n
        invariant
            n == a@.len() == b@.len(),
            i <= n,
            forall|j: int| 0 <= j < i ==> lower_code(a@[j]) == lower_code(b@[j]),
        decreases n - i,
    {
        if char_lower_code(a.get_char(i)) != char_lower_code(b.get_char(i)) {
            return false;
        }
        i = i + 1;
    }
    true
}

/// The extension of the file name of `path`, if it has one.
fn extension_of(path: &str) -> (r: Option<String>)
    ensures
        r matches Some(e) ==> (match file_name(components(path@)) {
            Some(n) => name_extension(n) == Some(e@),
            None => false,
        }),
        r is None ==> (match file_name(components(path@)) {
            Some(n) => name_extension(n) is None,
            None => true,
        }),
{
    match file_name_of_path(path) {
        Some(n) => extension_of_name(n.as_str()),
        None => None,
    }
}

/// Whether a file of media type `mime_type` at `path` is taken in.
pub fn is_filetype_supported(path: &str, mime_type: &str) -> (r: bool)
    ensures
        r == supported_type(path@, mime_type@),
{
    if text_is(mime_type, "image/tiff") {
        return match extension_of(path) {
            Some(e) => text_is_ignoring_ascii_case(e.as_str(), "tif") || text_is_ignoring_ascii_case(
                e.as_str(),
                "tiff",
            ),
            None => false,
        };
    }
    text_is(mime_type, "image/jpeg") || text_is(mime_type, "image/png") || text_is(mime_type, "image/gif")
        || text_is(mime_type, "image/webp")
}

/// Whether the path names an existing file of a supported type.
pub fn is_valid(exists: bool, is_file: bool, path: &str, mime_type: &str) -> (r: bool)
    ensures
        r == (exists && is_file && supported_type(path@, mime_type@)),
{
    exists && is_file && is_filetype_supported(path, mime_type)
}

/// Whether an EXIF orientation turns the image a quarter.
pub open spec fn is_turned(orientation: u32) -> bool {
    5 <= orientation <= 8
}

/// The width and height of an image as shown: stored dimensions, swapped
/// when the orientation of a JPEG turns it a quarter.
pub fn get_real_resolution(width: usize, height: usize, mime_type: &str, orientation: Option<u32>) -> (r: (usize, usize))
    ensures
        r == (if mime_type@ == "image/jpeg"@ && orientation is Some && is_turned(orientation.unwrap()) {
            (height, width)
        } else {
            (width, height)
        }),
{
    if !text_is(mime_type, "image/jpeg") {
        return (width, height);
    }
    match orientation {
        Some(o) => if 5 <= o && o <= 8 {
            (height, width)
        } else {
            (width, height)
        },
        None => (width, height),
    }
}

/// The new entry for the file at `path` with the figures read from it; the
/// id is the digest of the path. `None` when the path has no file name or
/// no parent.
pub fn map_file(path: &str, size: u64, mime_type: &str, width: usize, height: usize) -> (r: Option<CImage>)
    ensures
        (file_name(components(path@)) is Some && parent(components(path@)) is Some) <==> r is Some,
        r matches Some(c) ==> {
            &&& file_name(components(path@)) == Some(c.name@)
            &&& c.directory@ == join_path(parent(components(path@)).unwrap())
            &&& c.path@ == path@
            &&& c.id@ == hex_lower(sha256_of(path.spec_bytes()))
            &&& c.id@.len() == 64
            &&& c.mime_type@ == mime_type@
            &&& c.size == size
            &&& c.width == width
            &&& c.height == height
            &&& c.compressed_width == 0
            &&& c.compressed_height == 0
            &&& c.compressed_size == 0
            &&& c.compressed_file_path@.len() == 0
            &&& c.info@.len() == 0
            &&& c.status == ImageStatus::New
        },
{
    let name = match file_name_of_path(path) {
        Some(n) => n,
        None => return None,
    };
    let directory = match parent_of_path(path) {
        Some(d) => d,
        None => return None,
    };
    Some(
        CImage {
            id: image_id(path),
            name,
            path: path.to_owned(),
            directory,
            mime_type: mime_type.to_owned(),
            size,
            width,
            height,
            compressed_width: 0,
            compressed_height: 0,
            compressed_size: 0,
            compressed_file_path: String::new(),
            info: String::new(),
            status: ImageStatus::New,
        },
    )
}

/// The whole percent of an import after file `index` (from 0) of `total`.
pub fn import_progress(index: usize, total: usize) -> (r: FileImportProgress)
    requires
        index < total,
    ensures
        r.progress == (index + 1) * 100 / total as int,
        r.progress <= 100,
        r.total == total,
{
    proof {
        let (i, t) = (index as int, total as int);
        assert((i + 1) * 100 / t <= 100) by (nonlinear_arith)
            requires
                0 <= i < t,
        ;
        assert((i + 1) * 100 <= u64::MAX as int * 100) by (nonlinear_arith)
            requires
                0 <= i < t,
                t <= u64::MAX as int,
        ;
    }
    let p = ((index as u128 + 1) * 100 / total as u128) as usize;
    FileImportProgress { progress: p, total }
}

/// The base folder and the kept files of a scan of `cands` from `initial`,
/// where `outcomes[i]` is the absolute form of `cands[i]`, or `None` where
/// it could not be made absolute: each candidate with an absolute form is
/// kept, in order, and folded into the base folder.
pub open spec fn scan_result(initial: Seq<char>, cands: Seq<Seq<char>>, outcomes: Seq<Option<Seq<char>>>) -> (
    Seq<char>,
    Seq<Seq<char>>,
)
    decreases cands.len(),
{
    if cands.len() == 0 || outcomes.len() != cands.len() {
        (initial, Seq::empty())
    } else {
        let (b, k) = scan_result(initial, cands.drop_last(), outcomes.drop_last());
        match outcomes.last() {
            Some(a) => (base_folder_after(b, a, true), k.push(cands.last())),
            None => (b, k),
        }
    }
}

/// The outcomes of making each of `cands` absolute: absolute paths, and
/// for an absolute candidate one with its own components.
pub open spec fn absolute_outcomes(cands: Seq<Seq<char>>, outcomes: Seq<Option<Seq<char>>>) -> bool {
    &&& outcomes.len() == cands.len()
    &&& forall|i: int| 0 <= i < outcomes.len() && #[trigger] outcomes[i] is Some ==> is_absolute(outcomes[i].unwrap())
    &&& forall|i: int| 0 <= i < cands.len() && is_absolute(#[trigger] cands[i]) ==> outcomes[i] is Some
        && components(outcomes[i].unwrap()) == components(cands[i])
}

/// The base folder after a scan from `initial_base_path` and the files
/// kept: each of `candidates`, which are supported files, in order, unless
/// its path cannot be made absolute (which an absolute path always can).
pub fn scan_files(candidates: &Vec<String>, initial_base_path: &str) -> (r: (String, Vec<String>))
    ensures
        candidates@.len() == 0 ==> r.0@ == initial_base_path@ && r.1@.len() == 0,
        exists|outcomes: Seq<Option<Seq<char>>>|
            absolute_outcomes(views(candidates@), outcomes) && #[trigger] scan_result(
                initial_base_path@,
                views(candidates@),
                outcomes,
            ) == (r.0@, views(r.1@)),
{
    let mut base = initial_base_path.to_owned();
    let mut files: Vec<String> = Vec::new();
    let mut i: usize = 0;
    let ghost mut outcomes: Seq<Option<Seq<char>>> = Seq::empty();
    let ghost cands = views(candidates@);
    assert(cands.take(0) =~= Seq::<Seq<char>>::empty());
    assert(views(files@) =~= Seq::<Seq<char>>::empty());
    while i < candidates.len()
        invariant
            i <= candidates@.len(),
            cands == views(candidates@),
            absolute_outcomes(cands.take(i as int), outcomes),
            scan_result(initial_base_path@, cands.take(i as int), outcomes) == (base@, views(files@)),
        decreases candidates@.len() - i,
    {
        let ghost before = outcomes;
        let ghost c = cands[i as int];
        assert(cands.take(i + 1).drop_last() =~= cands.take(i as int));
        assert(cands.take(i + 1).last() == c);
        match compute_base_path(candidates[i].as_str(), base.as_str(), true) {
            Some(b) => {
                proof {
                    let a = if is_absolute(c) {
                        c
                    } else {
                        choose|a: Seq<char>| is_absolute(a) && b@ == #[trigger] base_folder_after(base@, a, true)
                    };
                    outcomes = outcomes.push(Some(a));
                    assert(outcomes.drop_last() =~= before);
                }
                base = b;
                let f = candidates[i].clone();
                let ghost kept = views(files@);
                files.push(f);
                assert(views(files@) =~= kept.push(c));
            },
            None => {
                proof {
                    outcomes = outcomes.push(None);
                    assert(outcomes.drop_last() =~= before);
                }
            },
        }
        proof {
            let t = cands.take(i + 1);
            assert forall|k: int| 0 <= k < outcomes.len() && #[trigger] outcomes[k] is Some implies is_absolute(
                outcomes[k].unwrap(),
            ) by {
                if k < i {
                    assert(outcomes[k] == before[k]);
                }
            }
            assert forall|k: int| 0 <= k < t.len() && is_absolute(#[trigger] t[k]) implies outcomes[k] is Some
                && components(outcomes[k].unwrap()) == components(t[k]) by {
                if k < i {
                    assert(outcomes[k] == before[k]);
                    assert(t[k] == cands.take(i as int)[k]);
                }
            }
        }
        i = i + 1;
    }
    assert(cands.take(candidates@.len() as int) =~= cands);
    (base, files)
}

/// All of `entries` put into `recs` one after another.
pub open spec fn upsert_all(recs: Seq<CImage>, entries: Seq<CImage>) -> Seq<CImage>
    decreases entries.len(),
{
    if entries.len() == 0 {
        recs
    } else {
        upsert(upsert_all(recs, entries.drop_last()), entries.last())
    }
}

/// Puts the entries of an import into the catalog, then sorts it. The
/// result gives the number of entries the catalog counted before and
/// after.
pub fn import_entries(data: &mut AppData, entries: Vec<CImage>) -> (r: ImportFinishedResult)
    requires
        old(data).file_list.wf(),
    ensures
        final(data).file_list.wf(),
        final(data).base_path == old(data).base_path,
        final(data).compression_status == old(data).compression_status,
        exists|m: Seq<(Seq<char>, CImage)>| records(m) == upsert_all(old(data).file_list.images(), entries@)
            && #[trigger] m.to_multiset() == final(data).file_list.entries().to_multiset(),
        sorted_by(final(data).file_list.images(), old(data).file_list.sorting.column,
            old(data).file_list.sorting.order),
        r.original_list_length == old(data).file_list.hits().len(),
        r.new_list_length == final(data).file_list.hits().len(),
{
    let original = data.file_list.len();
    let ghost start = data.file_list.images();
    let mut i: usize = 0;
    while i < entries.len()
        invariant
            i <= entries@.len(),
            data.file_list.wf(),
            data.file_list.images() == upsert_all(start, entries@.take(i as int)),
            data.base_path == old(data).base_path,
            data.compression_status == old(data).compression_status,
            data.file_list.sorting == old(data).file_list.sorting,
        decreases entries@.len() - i,
    {
        let c = entries[i].duplicate();
        data.file_list.insert(c);
        assert(entries@.take(i + 1).drop_last() =~= entries@.take(i as int));
        i = i + 1;
    }
    assert(entries@.take(entries@.len() as int) =~= entries@);
    data.file_list.sort_list();
    let after = data.file_list.len();
    ImportFinishedResult { original_list_length: original, new_list_length: after }
}

/// The current page of `data` as the presentation layer receives it, with
/// `base_folder` as the base folder to show.
pub fn file_list_view(data: &AppData, base_folder: String) -> (r: FileList)
    requires
        data.file_list.wf(),
    ensures
        r.files@.len() == data.file_list.paged_list@.len(),
        forall|i: int| 0 <= i < r.files@.len() ==> r.files@[i] == data.file_list.paged_list@[i],
        r.total_files == data.file_list.hits().len(),
        r.base_folder == base_folder,
{
    let mut files: Vec<CImage> = Vec::new();
    let mut i: usize = 0;
    while i < data.file_list.paged_list.len()
        invariant
            i <= data.file_list.paged_list@.len(),
            files@.len() == i,
            forall|j: int| 0 <= j < i ==> files@[j] == data.file_list.paged_list@[j],
        decreases data.file_list.paged_list@.len() - i,
    {
        files.push(data.file_list.paged_list[i].duplicate());
        i = i + 1;
    }
    FileList { files, base_folder, total_files: data.file_list.len() }
}

#[verifier::external_type_specification]
#[verifier::external_body]
pub struct ExRegex(Regex);

/// Relies on regex::Regex::new: `None` when the pattern does not compile.
/// Nothing is stated of what the compiled pattern matches.
#[verifier::external_body]
fn compile_pattern(pattern: &str) -> (r: Option<Regex>) {
    Regex::new(pattern).ok()
}

/// Relies on regex::Regex::is_match: whether the pattern matches somewhere
/// in `text`.
#[verifier::external_body]
fn pattern_matches(re: &Regex, text: &str) -> (r: bool) {
    re.is_match(text)
}

/// Whether a file of `file_size` bytes passes the size filter: a failed
/// read of the size, or a filter that is off, lets every file pass.
pub open spec fn size_passes(f: AdvancedImportDialogSizeFilter, file_size: Option<u64>) -> bool {
    if !f.enabled {
        true
    } else {
        match file_size {
            None => true,
            Some(n) => {
                let limit = f.value * f.unit;
                if f.pattern@ == "greater_than"@ {
                    n > limit
                } else if f.pattern@ == "equal_to"@ {
                    n == limit
                } else if f.pattern@ == "less_than"@ {
                    n < limit
                } else {
                    false
                }
            },
        }
    }
}

/// The size part of the advanced import filter (see [`size_passes`]).
pub fn size_filter_passes(f: &AdvancedImportDialogSizeFilter, file_size: Option<u64>) -> (r: bool)
    ensures
        r == size_passes(*f, file_size),
{
    if !f.enabled {
        return true;
    }
    match file_size {
        None => true,
        Some(n) => {
            proof {
                let (v, u) = (f.value as int, f.unit as int);
                let m = 0x8000_0000int;
                assert(-m * m <= v * u <= m * m) by (nonlinear_arith)
                    requires
                        -m <= v <= m,
                        -m <= u <= m,
                ;
            }
            let limit = (f.value as i128) * (f.unit as i128);
            let n = n as i128;
            if text_is(f.pattern.as_str(), "greater_than") {
                n > limit
            } else if text_is(f.pattern.as_str(), "equal_to") {
                n == limit
            } else if text_is(f.pattern.as_str(), "less_than") {
                n < limit
            } else {
                false
            }
        },
    }
}

/// A file passes an advanced import filter when the pattern is set and its
/// name matches, and its size passes.
pub open spec fn advanced_import_passes(filter: AdvancedImportDialogFilter, name_matches: bool, file_size: Option<u64>) -> bool {
    filter.pattern@.len() > 0 && name_matches && size_passes(filter.size, file_size)
}

/// Whether a file passes an advanced import filter, given whether its name
/// matched the filter's pattern: the pattern must be set and match, and
/// the size must pass.
pub fn advanced_import_decision(filter: &AdvancedImportDialogFilter, name_matches: bool, file_size: Option<u64>) -> (r: bool)
    ensures
        r == advanced_import_passes(*filter, name_matches, file_size),
{
    let has_pattern = filter.pattern.as_str().unicode_len() > 0;
    has_pattern && name_matches && size_filter_passes(&filter.size, file_size)
}

/// Whether the file named `file_name`, of `file_size` bytes where that
/// could be read, passes an advanced import filter. A pattern that does
/// not compile lets nothing pass.
pub fn is_valid_for_advanced_import(file_name: &str, file_size: Option<u64>, filter: &AdvancedImportDialogFilter) -> (r: bool)
    ensures
        filter.pattern@.len() == 0 ==> !r,
        !size_passes(filter.size, file_size) ==> !r,
        exists|name_matches: bool| r == #[trigger] advanced_import_passes(*filter, name_matches, file_size),
{
    if filter.pattern.as_str().unicode_len() == 0 {
        assert(advanced_import_passes(*filter, false, file_size) == false);
        return false;
    }
    let matched = match compile_pattern(filter.pattern.as_str()) {
        Some(re) => pattern_matches(&re, file_name),
        None => false,
    };
    advanced_import_decision(filter, matched, file_size)
}

/// What the presentation layer asks for once a job is over.
#[derive(Clone, Copy, Debug, PartialEq, Eq, Structural)]
pub enum PostCompressionAction {
    NoAction,
    CloseApp,
    Shutdown,
    Sleep,
    OpenOutputFolder,
}

impl PostCompressionAction {
    /// The action that `s` names; no action for anything else.
    pub fn parse(s: &str) -> (r: PostCompressionAction)
        ensures
            r == (if s@ == "close_app"@ {
                PostCompressionAction::CloseApp
            } else if s@ == "shutdown"@ {
                PostCompressionAction::Shutdown
            } else if s@ == "sleep"@ {
                PostCompressionAction::Sleep
            } else if s@ == "open_output_folder"@ {
                PostCompressionAction::OpenOutputFolder
            } else {
                PostCompressionAction::NoAction
            }),
    {
        if text_is(s, "close_app") {
            PostCompressionAction::CloseApp
        } else if text_is(s, "shutdown") {
            PostCompressionAction::Shutdown
        } else if text_is(s, "sleep") {
            PostCompressionAction::Sleep
        } else if text_is(s, "open_output_folder") {
            PostCompressionAction::OpenOutputFolder
        } else {
            PostCompressionAction::NoAction
        }
    }
}

} // verus!
