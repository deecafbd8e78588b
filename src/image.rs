//! Catalog entries.
use vstd::prelude::*;

verus! {

/// Where an entry stands: `New`, then `Compressing` while its compression
/// is under way, then one of the three outcomes.
#[derive(Clone, Copy, Debug, PartialEq, Eq, Structural)]
pub enum ImageStatus {
    New,
    Success,
    Warning,
    Error,
    Compressing,
}

impl ImageStatus {
    /// The code that the presentation layer knows the status by.
    pub fn code(&self) -> (r: i8)
        ensures
            r == status_code(*self),
    {
        match self {
            ImageStatus::New => 0,
            ImageStatus::Success => 1,
            ImageStatus::Warning => 2,
            ImageStatus::Error => 3,
            ImageStatus::Compressing => -1i8,
        }
    }
}

pub open spec fn status_code(s: ImageStatus) -> i8 {
    match s {
        ImageStatus::New => 0,
        ImageStatus::Success => 1,
        ImageStatus::Warning => 2,
        ImageStatus::Error => 3,
        ImageStatus::Compressing => -1i8,
    }
}

/// One image of the catalog. Entries are the same entry when their `id`
/// is the same, whatever the other fields hold.
#[derive(Clone, Debug)]
pub struct CImage {
    pub id: String,
    pub name: String,
    pub path: String,
    pub directory: String,
    pub mime_type: String,
    pub size: u64,
    pub width: usize,
    pub height: usize,
    pub compressed_width: usize,
    pub compressed_height: usize,
    pub compressed_size: u64,
    pub compressed_file_path: String,
    pub info: String,
    pub status: ImageStatus,
}

impl CImage {
    /// A field-by-field copy.
    pub fn duplicate(&self) -> (r: CImage)
        ensures
            r == *self,
    {
        CImage {
            id: self.id.clone(),
            name: self.name.clone(),
            path: self.path.clone(),
            directory: self.directory.clone(),
            mime_type: self.mime_type.clone(),
            size: self.size,
            width: self.width,
            height: self.height,
            compressed_width: self.compressed_width,
            compressed_height: self.compressed_height,
            compressed_size: self.compressed_size,
            compressed_file_path: self.compressed_file_path.clone(),
            info: self.info.clone(),
            status: self.status,
        }
    }
}

impl PartialEq for CImage {
    fn eq(&self, other: &CImage) -> (r: bool) {
        self.id == other.id
    }
}

impl vstd::std_specs::cmp::PartialEqSpecImpl for CImage {
    open spec fn obeys_eq_spec() -> bool {
        true
    }

    open spec fn eq_spec(&self, other: &CImage) -> bool {
        self.id@ == other.id@
    }
}

impl Eq for CImage {
}

} // verus!
