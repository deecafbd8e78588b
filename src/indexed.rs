//! The insertion-ordered map and set of the `indexmap` crate, as the catalog
//! uses them: a map from entry id to entry, and a set of ids.
use vstd::prelude::*;

use crate::image::CImage;
use crate::catalog::{compare_images, compare_images_spec, FileListColumn, SortOrder};
use indexmap::{IndexMap, IndexSet};

verus! {

#[verifier::external_type_specification]
#[verifier::external_body]
#[verifier::reject_recursive_types(K)]
#[verifier::reject_recursive_types(V)]
#[verifier::reject_recursive_types(S)]
pub struct ExIndexMap<K, V, S>(IndexMap<K, V, S>);

#[verifier::external_type_specification]
#[verifier::external_body]
#[verifier::reject_recursive_types(T)]
#[verifier::reject_recursive_types(S)]
pub struct ExIndexSet<T, S>(IndexSet<T, S>);

/// The key-value pairs of an entry map, in the map's order.
pub uninterp spec fn map_entries(m: IndexMap<String, CImage>) -> Seq<(Seq<char>, CImage)>;

/// The items of an id set, in the set's order.
pub uninterp spec fn set_items(s: IndexSet<String>) -> Seq<Seq<char>>;

pub open spec fn keys_unique(e: Seq<(Seq<char>, CImage)>) -> bool {
    forall|i: int, j: int| 0 <= i < j < e.len() ==> e[i].0 != e[j].0
}

pub open spec fn has_key(e: Seq<(Seq<char>, CImage)>, k: Seq<char>) -> bool {
    exists|i: int| 0 <= i < e.len() && #[trigger] e[i].0 == k
}

pub open spec fn items_unique(s: Seq<Seq<char>>) -> bool {
    forall|i: int, j: int| 0 <= i < j < s.len() ==> s[i] != s[j]
}

/// Relies on IndexMap::new: the map is empty.
#[verifier::external_body]
pub(crate) fn entry_map_new() -> (r: IndexMap<String, CImage>)
    ensures
        map_entries(r) == Seq::<(Seq<char>, CImage)>::empty(),
{
    IndexMap::new()
}

/// Relies on IndexMap::len: the number of pairs.
#[verifier::external_body]
pub(crate) fn entry_map_len(m: &IndexMap<String, CImage>) -> (r: usize)
    ensures
        r == map_entries(*m).len(),
{
    m.len()
}

/// Relies on IndexMap::insert: a present key keeps its place and takes the
/// new value, and the old value is returned; a new key goes last.
#[verifier::external_body]
pub(crate) fn entry_map_insert(m: &mut IndexMap<String, CImage>, k: String, v: CImage) -> (r: Option<CImage>)
    requires
        keys_unique(map_entries(*old(m))),
    ensures
        keys_unique(map_entries(*final(m))),
        match r {
            Some(prev) => exists|i: int|
                0 <= i < map_entries(*old(m)).len() && #[trigger] map_entries(*old(m))[i].0 == k@
                    && prev == map_entries(*old(m))[i].1
                    && map_entries(*final(m)) == map_entries(*old(m)).update(i, (k@, v)),
            None => !has_key(map_entries(*old(m)), k@)
                && map_entries(*final(m)) == map_entries(*old(m)).push((k@, v)),
        },
{
    m.insert(k, v)
}

/// Relies on IndexMap::shift_remove: the pair with key `k` is taken out and
/// the pairs after it move up one place.
#[verifier::external_body]
pub(crate) fn entry_map_shift_remove(m: &mut IndexMap<String, CImage>, k: &str) -> (r: Option<CImage>)
    requires
        keys_unique(map_entries(*old(m))),
    ensures
        keys_unique(map_entries(*final(m))),
        match r {
            Some(prev) => exists|i: int|
                0 <= i < map_entries(*old(m)).len() && #[trigger] map_entries(*old(m))[i].0 == k@
                    && prev == map_entries(*old(m))[i].1
                    && map_entries(*final(m)) == map_entries(*old(m)).remove(i),
            None => !has_key(map_entries(*old(m)), k@) && map_entries(*final(m)) == map_entries(*old(m)),
        },
{
    m.shift_remove(k)
}

/// Relies on IndexMap::get: the value stored under `k`.
#[verifier::external_body]
pub(crate) fn entry_map_get<'a>(m: &'a IndexMap<String, CImage>, k: &str) -> (r: Option<&'a CImage>)
    ensures
        match r {
            Some(v) => exists|i: int|
                0 <= i < map_entries(*m).len() && #[trigger] map_entries(*m)[i].0 == k@
                    && *v == map_entries(*m)[i].1,
            None => !has_key(map_entries(*m), k@),
        },
{
    m.get(k)
}

/// Relies on IndexMap::get_index: the pair at place `i`.
#[verifier::external_body]
pub(crate) fn entry_map_get_index<'a>(m: &'a IndexMap<String, CImage>, i: usize) -> (r: Option<(&'a String, &'a CImage)>)
    ensures
        i < map_entries(*m).len() ==> r is Some && r.unwrap().0@ == map_entries(*m)[i as int].0
            && *r.unwrap().1 == map_entries(*m)[i as int].1,
        i >= map_entries(*m).len() ==> r is None,
{
    m.get_index(i)
}

/// Relies on IndexMap::par_sort_by, a stable parallel sort: the pairs are
/// reordered so that no value compares greater than one after it. This
/// holds because the comparison, [`compare_images`], is a total preorder
/// (proved in `catalog::compare_images_is_total_preorder`).
#[verifier::external_body]
pub(crate) fn entry_map_sort(m: &mut IndexMap<String, CImage>, column: FileListColumn, order: SortOrder)
    requires
        keys_unique(map_entries(*old(m))),
    ensures
        keys_unique(map_entries(*final(m))),
        map_entries(*final(m)).to_multiset() == map_entries(*old(m)).to_multiset(),
        forall|i: int, j: int| 0 <= i < j < map_entries(*final(m)).len() ==>
            compare_images_spec(map_entries(*final(m))[i].1, map_entries(*final(m))[j].1, column, order)
                != core::cmp::Ordering::Greater,
{
    m.par_sort_by(|_, a, _, b| compare_images(a, b, column, order))
}

/// Relies on IndexSet::new: the set is empty.
#[verifier::external_body]
pub(crate) fn id_set_new() -> (r: IndexSet<String>)
    ensures
        set_items(r) == Seq::<Seq<char>>::empty(),
{
    IndexSet::new()
}

/// Relies on IndexSet::clear: the set is empty afterwards.
#[verifier::external_body]
pub(crate) fn id_set_clear(s: &mut IndexSet<String>)
    ensures
        set_items(*final(s)) == Seq::<Seq<char>>::empty(),
{
    s.clear()
}

/// Relies on IndexSet::len: the number of items.
#[verifier::external_body]
pub(crate) fn id_set_len(s: &IndexSet<String>) -> (r: usize)
    ensures
        r == set_items(*s).len(),
{
    s.len()
}

/// Relies on IndexSet::insert: a new item goes last; a present one stays
/// where it is and `false` comes back.
#[verifier::external_body]
pub(crate) fn id_set_insert(s: &mut IndexSet<String>, v: String) -> (r: bool)
    requires
        items_unique(set_items(*old(s))),
    ensures
        items_unique(set_items(*final(s))),
        r == !set_items(*old(s)).contains(v@),
        r ==> set_items(*final(s)) == set_items(*old(s)).push(v@),
        !r ==> set_items(*final(s)) == set_items(*old(s)),
{
    s.insert(v)
}

/// Relies on IndexSet::get_index: the item at place `i`.
#[verifier::external_body]
pub(crate) fn id_set_get_index<'a>(s: &'a IndexSet<String>, i: usize) -> (r: Option<&'a String>)
    ensures
        i < set_items(*s).len() ==> r is Some && r.unwrap()@ == set_items(*s)[i as int],
        i >= set_items(*s).len() ==> r is None,
{
    s.get_index(i)
}

} // verus!
