//! The state of a session: the catalog, the base folder of its entries,
//! and the flags of the compression job.
use vstd::prelude::*;
use vstd::string::*;

use crate::catalog::{AppDataFileList, ITEMS_PER_PAGE};
use crate::paths::{base_folder_after, components, compute_base_folder, compute_base_path, is_absolute, views};
use crate::scheduler::CompressionFlags;

verus! {

/// The base folder after the absolute file paths `paths`, folded from
/// `start` with [`compute_base_folder`].
pub open spec fn base_folder_from(start: Seq<char>, paths: Seq<Seq<char>>) -> Seq<char>
    decreases paths.len(),
{
    if paths.len() == 0 {
        start
    } else {
        base_folder_after(base_folder_from(start, paths.drop_last()), paths.last(), true)
    }
}

/// The base folder of absolute file paths, folded from an empty one.
pub open spec fn base_folder_of(paths: Seq<Seq<char>>) -> Seq<char> {
    base_folder_from(Seq::empty(), paths)
}

/// The base folder of the absolute file paths `paths` (see [`base_folder_of`]).
pub fn fold_base_folder(paths: &Vec<String>) -> (r: String)
    ensures
        r@ == base_folder_of(views(paths@)),
{
    let mut base = String::new();
    let mut i: usize = 0;
    assert(views(paths@).take(0) =~= Seq::<Seq<char>>::empty());
    while i < paths.len()
        invariant
            i <= paths@.len(),
            base@ == base_folder_of(views(paths@).take(i as int)),
        decreases paths@.len() - i,
    {
        base = compute_base_folder(base.as_str(), paths[i].as_str(), true);
        assert(views(paths@).take(i + 1).drop_last() =~= views(paths@).take(i as int));
        i = i + 1;
    }
    assert(views(paths@).take(paths@.len() as int) =~= views(paths@));
    base
}

/// A catalog entry whose path could not be made absolute.
#[derive(Clone, Debug)]
pub struct BasePathError {
    pub path: String,
}

impl BasePathError {
    /// A sentence that names the path.
    pub fn message(&self) -> (r: String)
        ensures
            r@ == "Could not compute base path for file "@ + self.path@,
    {
        let mut r = "Could not compute base path for file ".to_owned();
        r.append(self.path.as_str());
        r
    }
}

/// The state of a session: the catalog, the base folder of its entries,
/// and the flags of the compression job.
pub struct AppData {
    pub file_list: AppDataFileList,
    pub base_path: String,
    pub compression_status: CompressionFlags,
}

impl AppData {
    /// An empty catalog with an empty base folder.
    pub fn default() -> (r: AppData)
        ensures
            r.file_list.wf(),
            r.file_list.images().len() == 0,
            r.file_list.current_page == 1,
            r.file_list.items_per_page == ITEMS_PER_PAGE,
            r.base_path@.len() == 0,
            !r.compression_status.is_compressing,
            !r.compression_status.is_compression_paused,
            !r.compression_status.is_compression_cancelled,
    {
        AppData {
            file_list: AppDataFileList::new(),
            base_path: String::new(),
            compression_status: CompressionFlags::new(),
        }
    }

    /// The same as [`AppData::default`].
    pub fn new() -> (r: AppData)
        ensures
            r.file_list.wf(),
            r.file_list.images().len() == 0,
            r.file_list.current_page == 1,
            r.file_list.items_per_page == ITEMS_PER_PAGE,
            r.base_path@.len() == 0,
            !r.compression_status.is_compressing,
            !r.compression_status.is_compression_paused,
            !r.compression_status.is_compression_cancelled,
    {
        Self::default()
    }

    /// Recomputes the base folder from all entries, which are files, in
    /// the catalog's order. Fails on the first entry whose path cannot be
    /// made absolute, and then leaves the base folder as it was.
    pub fn compute_base_path(&mut self) -> (r: Result<(), BasePathError>)
        requires
            old(self).file_list.wf(),
        ensures
            final(self).file_list == old(self).file_list,
            final(self).compression_status == old(self).compression_status,
            old(self).file_list.images().len() == 0 ==> r is Ok && final(self).base_path@.len() == 0,
            r is Ok ==> exists|abs: Seq<Seq<char>>|
                abs.len() == old(self).file_list.images().len() && (forall|k: int| 0 <= k < abs.len()
                    ==> is_absolute(#[trigger] abs[k])) && (forall|k: int| 0 <= k < abs.len() && is_absolute(
                    old(self).file_list.images()[k].path@,
                ) ==> components(#[trigger] abs[k]) == components(old(self).file_list.images()[k].path@))
                    && final(self).base_path@ == base_folder_of(abs),
            r matches Err(e) ==> final(self).base_path == old(self).base_path && !is_absolute(e.path@)
                && exists|i: int| 0 <= i < old(self).file_list.images().len()
                && #[trigger] old(self).file_list.images()[i].path@ == e.path@,
    {
        let entries = self.file_list.iter();
        let mut base = String::new();
        let mut i: usize = 0;
        let ghost mut abs: Seq<Seq<char>> = Seq::empty();
        while i < entries.len()
            invariant
                abs.len() == i,
                forall|k: int| 0 <= k < abs.len() ==> is_absolute(#[trigger] abs[k]),
                forall|k: int| 0 <= k < abs.len() && is_absolute(self.file_list.images()[k].path@) ==> components(
                    #[trigger] abs[k],
                ) == components(self.file_list.images()[k].path@),
                base@ == base_folder_of(abs),
                i <= entries@.len(),
                entries@.len() == self.file_list.images().len(),
                forall|j: int| 0 <= j < entries@.len() ==> *entries@[j] == self.file_list.images()[j],
                self.file_list == old(self).file_list,
                self.base_path == old(self).base_path,
                self.compression_status == old(self).compression_status,
                entries@.len() == 0 ==> base@.len() == 0,
            decreases entries@.len() - i,
        {
            let c = entries[i];
            match compute_base_path(c.path.as_str(), base.as_str(), true) {
                Some(p) => {
                    proof {
                        let a = if is_absolute(c.path@) {
                            c.path@
                        } else {
                            choose|a: Seq<char>| is_absolute(a) && p@ == #[trigger] base_folder_after(base@, a, true)
                        };
                        let before = abs;
                        abs = abs.push(a);
                        assert(abs.drop_last() =~= before);
                        assert(self.file_list.images()[i as int].path@ == c.path@);
                        assert forall|k: int| 0 <= k < abs.len() && is_absolute(self.file_list.images()[k].path@)
                            implies components(#[trigger] abs[k]) == components(self.file_list.images()[k].path@) by {
                            if k < i {
                                assert(abs[k] == before[k]);
                            }
                        }
                    }
                    base = p;
                },
                None => {
                    assert(self.file_list.images()[i as int].path@ == c.path@);
                    return Err(BasePathError { path: c.path.clone() });
                },
            }
            i = i + 1;
        }
        self.base_path = base;
        Ok(())
    }
}

} // verus!
