//! The catalog: an insertion-ordered collection of entries unique by id,
//! with a search filter, a sort order and a page of the filtered entries.
use vstd::prelude::*;
use vstd::string::*;

use crate::image::CImage;
use crate::paths::views;
use crate::indexed::{
    entry_map_get, entry_map_get_index, entry_map_insert, entry_map_len, entry_map_new,
    entry_map_shift_remove, entry_map_sort, id_set_clear, id_set_get_index,
    id_set_insert, id_set_len, id_set_new, items_unique, keys_unique, map_entries, set_items,
};
use crate::text::{occurs_in, text_contains, text_is};
use core::cmp::Ordering;
use indexmap::{IndexMap, IndexSet};

verus! {

/// The number of entries on a page.
pub const ITEMS_PER_PAGE: usize = 50;

/// The key that the catalog is sorted by.
#[derive(Clone, Copy, Debug, PartialEq, Eq, Structural)]
pub enum FileListColumn {
    Filename,
    Size,
    Resolution,
    Saved,
}

impl FileListColumn {
    /// The column that `s` names, if any.
    pub fn from_str(s: &str) -> (r: Option<FileListColumn>)
        ensures
            r == (if s@ == "filename"@ {
                Some(FileListColumn::Filename)
            } else if s@ == "size"@ {
                Some(FileListColumn::Size)
            } else if s@ == "resolution"@ {
                Some(FileListColumn::Resolution)
            } else if s@ == "saved"@ {
                Some(FileListColumn::Saved)
            } else {
                None
            }),
    {
        if text_is(s, "filename") {
            Some(FileListColumn::Filename)
        } else if text_is(s, "size") {
            Some(FileListColumn::Size)
        } else if text_is(s, "resolution") {
            Some(FileListColumn::Resolution)
        } else if text_is(s, "saved") {
            Some(FileListColumn::Saved)
        } else {
            None
        }
    }
}

impl Default for FileListColumn {
    fn default() -> (r: FileListColumn)
        ensures
            r == FileListColumn::Filename,
    {
        FileListColumn::Filename
    }
}

/// The direction of a sort.
#[derive(Clone, Copy, Debug, PartialEq, Eq, Structural)]
pub enum SortOrder {
    Ascending,
    Descending,
}

impl SortOrder {
    /// The order that `s` names, if any.
    pub fn from_str(s: &str) -> (r: Option<SortOrder>)
        ensures
            r == (if s@ == "ascending"@ {
                Some(SortOrder::Ascending)
            } else if s@ == "descending"@ {
                Some(SortOrder::Descending)
            } else {
                None
            }),
    {
        if text_is(s, "ascending") {
            Some(SortOrder::Ascending)
        } else if text_is(s, "descending") {
            Some(SortOrder::Descending)
        } else {
            None
        }
    }
}

impl Default for SortOrder {
    fn default() -> (r: SortOrder)
        ensures
            r == SortOrder::Ascending,
    {
        SortOrder::Ascending
    }
}

/// The sort that the catalog keeps.
#[derive(Clone, Copy, Debug, PartialEq, Eq, Structural)]
pub struct AppDataFileListSorting {
    pub column: FileListColumn,
    pub order: SortOrder,
}

impl Default for AppDataFileListSorting {
    fn default() -> (r: AppDataFileListSorting)
        ensures
            r.column == FileListColumn::Filename,
            r.order == SortOrder::Ascending,
    {
        AppDataFileListSorting { column: FileListColumn::Filename, order: SortOrder::Ascending }
    }
}

pub open spec fn int_cmp(a: int, b: int) -> Ordering {
    if a < b {
        Ordering::Less
    } else if a > b {
        Ordering::Greater
    } else {
        Ordering::Equal
    }
}

/// Lexicographic order of two texts by code point.
pub open spec fn lex_cmp(a: Seq<char>, b: Seq<char>) -> Ordering
    decreases a.len(),
{
    if a.len() == 0 {
        if b.len() == 0 {
            Ordering::Equal
        } else {
            Ordering::Less
        }
    } else if b.len() == 0 {
        Ordering::Greater
    } else if (a[0] as u32) != (b[0] as u32) {
        int_cmp(a[0] as u32 as int, b[0] as u32 as int)
    } else {
        lex_cmp(a.drop_first(), b.drop_first())
    }
}

pub open spec fn reversed(o: Ordering) -> Ordering {
    match o {
        Ordering::Less => Ordering::Greater,
        Ordering::Greater => Ordering::Less,
        Ordering::Equal => Ordering::Equal,
    }
}

/// The share of `original` bytes that a compression to `compressed` bytes
/// saved, as a fraction (numerator, denominator). Growth saves nothing, and
/// an empty original has saved nothing.
pub open spec fn saved_ratio(original: u64, compressed: u64) -> (int, int) {
    if original == 0 {
        (0, 1)
    } else if compressed >= original {
        (0, original as int)
    } else {
        (original - compressed, original as int)
    }
}

/// How two entries compare on `column` alone. Saved ratios compare as
/// fractions.
pub open spec fn column_cmp(a: CImage, b: CImage, column: FileListColumn) -> Ordering {
    match column {
        FileListColumn::Filename => lex_cmp(a.name@, b.name@),
        FileListColumn::Size => int_cmp(a.size as int, b.size as int),
        FileListColumn::Resolution => int_cmp(a.width * a.height, b.width * b.height),
        FileListColumn::Saved => {
            let ra = saved_ratio(a.size, a.compressed_size);
            let rb = saved_ratio(b.size, b.compressed_size);
            int_cmp(ra.0 * rb.1, rb.0 * ra.1)
        },
    }
}

/// How two entries compare under a column and a direction.
pub open spec fn compare_images_spec(a: CImage, b: CImage, column: FileListColumn, order: SortOrder) -> Ordering {
    match order {
        SortOrder::Ascending => column_cmp(a, b, column),
        SortOrder::Descending => reversed(column_cmp(a, b, column)),
    }
}

proof fn lemma_lex_antisymmetric(a: Seq<char>, b: Seq<char>)
    ensures
        lex_cmp(a, b) == reversed(lex_cmp(b, a)),
    decreases a.len(),
{
    if a.len() > 0 && b.len() > 0 && (a[0] as u32) == (b[0] as u32) {
        lemma_lex_antisymmetric(a.drop_first(), b.drop_first());
    }
}

proof fn lemma_lex_transitive(a: Seq<char>, b: Seq<char>, c: Seq<char>)
    requires
        lex_cmp(a, b) != Ordering::Greater,
        lex_cmp(b, c) != Ordering::Greater,
    ensures
        lex_cmp(a, c) != Ordering::Greater,
    decreases a.len(),
{
    if a.len() > 0 && b.len() > 0 && c.len() > 0 && (a[0] as u32) == (b[0] as u32) && (b[0] as u32) == (
    c[0] as u32) {
        lemma_lex_transitive(a.drop_first(), b.drop_first(), c.drop_first());
    }
}

/// The order the catalog sorts by is a total preorder: swapping two
/// entries reverses their comparison, and "not greater" is transitive. This
/// is what a sort needs of its comparison.
pub proof fn compare_images_is_total_preorder(a: CImage, b: CImage, c: CImage, column: FileListColumn, order: SortOrder)
    ensures
        compare_images_spec(a, b, column, order) == reversed(compare_images_spec(b, a, column, order)),
        compare_images_spec(a, b, column, order) != Ordering::Greater && compare_images_spec(b, c, column, order)
            != Ordering::Greater ==> compare_images_spec(a, c, column, order) != Ordering::Greater,
{
    lemma_lex_antisymmetric(a.name@, b.name@);
    if column_cmp(a, b, column) != Ordering::Greater && column_cmp(b, c, column) != Ordering::Greater {
        if column == FileListColumn::Filename {
            lemma_lex_transitive(a.name@, b.name@, c.name@);
        }
        if column == FileListColumn::Saved {
            lemma_ratio_transitive(a, b, c);
        }
    }
    if column_cmp(c, b, column) != Ordering::Greater && column_cmp(b, a, column) != Ordering::Greater {
        if column == FileListColumn::Filename {
            lemma_lex_transitive(c.name@, b.name@, a.name@);
            lemma_lex_antisymmetric(c.name@, a.name@);
            lemma_lex_antisymmetric(b.name@, c.name@);
        }
        if column == FileListColumn::Saved {
            lemma_ratio_transitive(c, b, a);
        }
    }
    lemma_lex_antisymmetric(b.name@, c.name@);
    lemma_lex_antisymmetric(a.name@, c.name@);
}

proof fn lemma_ratio_transitive(a: CImage, b: CImage, c: CImage)
    requires
        column_cmp(a, b, FileListColumn::Saved) != Ordering::Greater,
        column_cmp(b, c, FileListColumn::Saved) != Ordering::Greater,
    ensures
        column_cmp(a, c, FileListColumn::Saved) != Ordering::Greater,
{
    let ra = saved_ratio(a.size, a.compressed_size);
    let rb = saved_ratio(b.size, b.compressed_size);
    let rc = saved_ratio(c.size, c.compressed_size);
    let (an, ad, bn, bd, cn, cd) = (ra.0, ra.1, rb.0, rb.1, rc.0, rc.1);
    assert(an * cd <= cn * ad) by (nonlinear_arith)
        requires
            ad > 0,
            bd > 0,
            cd > 0,
            an >= 0,
            bn >= 0,
            cn >= 0,
            an * bd <= bn * ad,
            bn * cd <= cn * bd,
    {
        assert(an * bd * cd <= bn * ad * cd);
        assert(bn * cd * ad <= cn * bd * ad);
        assert(an * cd * bd <= cn * ad * bd);
    }
}

/// The saved share of an entry as a fraction (see [`saved_ratio`]).
pub fn get_saved_size(old_size: u64, new_size: u64) -> (r: (u64, u64))
    ensures
        r.0 as int == saved_ratio(old_size, new_size).0,
        r.1 as int == saved_ratio(old_size, new_size).1,
        r.1 > 0,
        r.0 <= r.1,
        new_size >= old_size ==> r.0 == 0,
{
    if old_size == 0 {
        (0, 1)
    } else {
        (old_size.saturating_sub(new_size), old_size)
    }
}

proof fn lemma_lex_skip(a: Seq<char>, b: Seq<char>, i: int)
    requires
        0 <= i <= a.len(),
        i <= b.len(),
        forall|j: int| 0 <= j < i ==> a[j] == b[j],
    ensures
        lex_cmp(a, b) == lex_cmp(a.skip(i), b.skip(i)),
    decreases i,
{
    if i > 0 {
        lemma_lex_skip(a.drop_first(), b.drop_first(), i - 1);
        assert(a.drop_first().skip(i - 1) =~= a.skip(i));
        assert(b.drop_first().skip(i - 1) =~= b.skip(i));
    } else {
        assert(a.skip(0) =~= a);
        assert(b.skip(0) =~= b);
    }
}

fn compare_text(a: &str, b: &str) -> (r: Ordering)
    ensures
        r == lex_cmp(a@, b@),
{
    let la = a.unicode_len();
    let lb = b.unicode_len();
    let mut i: usize = 0;
    while i < la && i < lb && a.get_char(i) == b.get_char(i)
        invariant
            la == a@.len(),
            lb == b@.len(),
            i <= la,
            i <= lb,
            forall|j: int| 0 <= j < i ==> a@[j] == b@[j],
        decreases la - i,
    {
        i = i + 1;
    }
    proof {
        lemma_lex_skip(a@, b@, i as int);
    }
    if i == la {
        if i == lb {
            Ordering::Equal
        } else {
            Ordering::Less
        }
    } else if i == lb {
        Ordering::Greater
    } else {
        let ca = a.get_char(i) as u32;
        let cb = b.get_char(i) as u32;
        assert(a@.skip(i as int)[0] == a@[i as int]);
        assert(b@.skip(i as int)[0] == b@[i as int]);
        if ca < cb {
            Ordering::Less
        } else {
            Ordering::Greater
        }
    }
}

fn mul_wide(a: u64, b: u64) -> (r: u128)
    ensures
        r == a * b,
{
    proof {
        let m = u64::MAX as int;
        assert((a as int) * (b as int) <= m * m) by (nonlinear_arith)
            requires
                0 <= a <= m,
                0 <= b <= m,
        ;
    }
    (a as u128) * (b as u128)
}

fn compare_u128(a: u128, b: u128) -> (r: Ordering)
    ensures
        r == int_cmp(a as int, b as int),
{
    if a < b {
        Ordering::Less
    } else if a > b {
        Ordering::Greater
    } else {
        Ordering::Equal
    }
}

/// How two entries compare under `column` and `order`; a total preorder.
pub fn compare_images(a: &CImage, b: &CImage, column: FileListColumn, order: SortOrder) -> (r: Ordering)
    ensures
        r == compare_images_spec(*a, *b, column, order),
{
    let c = match column {
        FileListColumn::Filename => compare_text(a.name.as_str(), b.name.as_str()),
        FileListColumn::Size => compare_u128(a.size as u128, b.size as u128),
        FileListColumn::Resolution => {
            let pa = mul_wide(a.width as u64, a.height as u64);
            let pb = mul_wide(b.width as u64, b.height as u64);
            compare_u128(pa, pb)
        },
        FileListColumn::Saved => {
            let ra = get_saved_size(a.size, a.compressed_size);
            let rb = get_saved_size(b.size, b.compressed_size);
            let x = mul_wide(ra.0, rb.1);
            let y = mul_wide(rb.0, ra.1);
            compare_u128(x, y)
        },
    };
    match order {
        SortOrder::Ascending => c,
        SortOrder::Descending => match c {
            Ordering::Less => Ordering::Greater,
            Ordering::Greater => Ordering::Less,
            Ordering::Equal => Ordering::Equal,
        },
    }
}

/// The entries of an entry map.
pub open spec fn records(e: Seq<(Seq<char>, CImage)>) -> Seq<CImage> {
    e.map_values(|p: (Seq<char>, CImage)| p.1)
}

/// The ids of some entries.
pub open spec fn ids_of(recs: Seq<CImage>) -> Seq<Seq<char>> {
    recs.map_values(|c: CImage| c.id@)
}

/// An entry matches a query when the query occurs in its path or its name.
pub open spec fn is_hit(c: CImage, q: Seq<char>) -> bool {
    occurs_in(q, c.path@) || occurs_in(q, c.name@)
}

/// The entries that match `q`, in order.
pub open spec fn matching(recs: Seq<CImage>, q: Seq<char>) -> Seq<CImage>
    decreases recs.len(),
{
    if recs.len() == 0 {
        Seq::empty()
    } else if is_hit(recs.last(), q) {
        matching(recs.drop_last(), q).push(recs.last())
    } else {
        matching(recs.drop_last(), q)
    }
}

/// The number of pages that `n` entries fill.
pub open spec fn page_count(n: nat, per_page: nat) -> nat {
    if per_page == 0 {
        0
    } else {
        ((n + per_page - 1) / per_page as int) as nat
    }
}

/// The entries of page `page` (counted from 1) of `s`.
pub open spec fn page_slice(s: Seq<CImage>, page: nat, per_page: nat) -> Seq<CImage> {
    let start = (page - 1) * per_page;
    if page == 0 || start >= s.len() {
        Seq::empty()
    } else if start + per_page <= s.len() {
        s.subrange(start, start + per_page)
    } else {
        s.subrange(start, s.len() as int)
    }
}

/// `page` brought into `[1, max_page]`; 1 when `max_page` is 0.
pub open spec fn clamp_page(page: nat, max_page: nat) -> nat {
    let capped = if page < max_page {
        page
    } else {
        max_page
    };
    if capped < 1 {
        1
    } else {
        capped
    }
}

/// No entry of `recs` compares greater than one after it.
pub open spec fn sorted_by(recs: Seq<CImage>, column: FileListColumn, order: SortOrder) -> bool {
    forall|i: int, j: int| 0 <= i < j < recs.len() ==> compare_images_spec(recs[i], recs[j], column, order) != Ordering::Greater
}

/// `recs` with `c` put in: in the place of the entry with the same id, or
/// last.
pub open spec fn upsert(recs: Seq<CImage>, c: CImage) -> Seq<CImage> {
    if exists|i: int| 0 <= i < recs.len() && #[trigger] recs[i].id@ == c.id@ {
        recs.update(choose|i: int| 0 <= i < recs.len() && #[trigger] recs[i].id@ == c.id@, c)
    } else {
        recs.push(c)
    }
}

/// `recs` without the entry whose id is `k`.
pub open spec fn without(recs: Seq<CImage>, k: Seq<char>) -> Seq<CImage>
    decreases recs.len(),
{
    if recs.len() == 0 {
        Seq::empty()
    } else if recs.last().id@ == k {
        without(recs.drop_last(), k)
    } else {
        without(recs.drop_last(), k).push(recs.last())
    }
}

/// `recs` without the entries whose ids are in `ks`.
pub open spec fn without_all(recs: Seq<CImage>, ks: Seq<Seq<char>>) -> Seq<CImage>
    decreases ks.len(),
{
    if ks.len() == 0 {
        recs
    } else {
        without(without_all(recs, ks.drop_last()), ks.last())
    }
}

pub open spec fn ids_unique(recs: Seq<CImage>) -> bool {
    forall|i: int, j: int| 0 <= i < j < recs.len() ==> recs[i].id@ != recs[j].id@
}

proof fn lemma_matching_members(recs: Seq<CImage>, q: Seq<char>)
    ensures
        forall|j: int| 0 <= j < matching(recs, q).len() ==> recs.contains(#[trigger] matching(recs, q)[j]),
        forall|j: int| 0 <= j < matching(recs, q).len() ==> is_hit(#[trigger] matching(recs, q)[j], q),
        matching(recs, q).len() <= recs.len(),
    decreases recs.len(),
{
    if recs.len() > 0 {
        lemma_matching_members(recs.drop_last(), q);
        let m = matching(recs.drop_last(), q);
        assert forall|j: int| 0 <= j < matching(recs, q).len() implies recs.contains(
            #[trigger] matching(recs, q)[j],
        ) && is_hit(matching(recs, q)[j], q) by {
            if j < m.len() {
                assert(recs.drop_last().contains(m[j]));
                let k = choose|k: int| 0 <= k < recs.drop_last().len() && recs.drop_last()[k] == m[j];
                assert(recs[k] == m[j]);
            } else {
                assert(recs[recs.len() - 1] == recs.last());
            }
        }
    }
}

proof fn lemma_matching_all(recs: Seq<CImage>, q: Seq<char>)
    requires
        q.len() == 0,
    ensures
        matching(recs, q) == recs,
    decreases recs.len(),
{
    if recs.len() > 0 {
        lemma_matching_all(recs.drop_last(), q);
        let z: int = 0;
        assert(recs.last().path@.subrange(z, z + q.len()) =~= q);
        assert(occurs_in(q, recs.last().path@));
        assert(recs.drop_last().push(recs.last()) =~= recs);
    }
}

proof fn lemma_matching_update(recs: Seq<CImage>, q: Seq<char>, i: int, c: CImage)
    requires
        0 <= i < recs.len(),
        recs[i].id@ == c.id@,
        is_hit(recs[i], q) == is_hit(c, q),
    ensures
        ids_of(matching(recs.update(i, c), q)) == ids_of(matching(recs, q)),
    decreases recs.len(),
{
    let u = recs.update(i, c);
    if i == recs.len() - 1 {
        assert(u.drop_last() =~= recs.drop_last());
        if is_hit(c, q) {
            assert(ids_of(matching(u, q)) =~= ids_of(matching(recs, q)));
        }
    } else {
        lemma_matching_update(recs.drop_last(), q, i, c);
        assert(u.drop_last() =~= recs.drop_last().update(i, c));
        assert(u.last() == recs.last());
        if is_hit(recs.last(), q) {
            assert(ids_of(matching(u, q)) =~= ids_of(matching(u.drop_last(), q)).push(recs.last().id@));
            assert(ids_of(matching(recs, q)) =~= ids_of(matching(recs.drop_last(), q)).push(recs.last().id@));
        }
    }
}

proof fn lemma_without_remove(recs: Seq<CImage>, i: int)
    requires
        0 <= i < recs.len(),
        ids_unique(recs),
    ensures
        without(recs, recs[i].id@) == recs.remove(i),
    decreases recs.len(),
{
    let k = recs[i].id@;
    if i == recs.len() - 1 {
        lemma_without_absent(recs.drop_last(), k);
        assert(recs.remove(i) =~= recs.drop_last());
    } else {
        lemma_without_remove(recs.drop_last(), i);
        assert(recs.drop_last()[i] == recs[i]);
        assert(recs.last().id@ != k);
        assert(recs.remove(i) =~= recs.drop_last().remove(i).push(recs.last()));
    }
}

proof fn lemma_without_absent(recs: Seq<CImage>, k: Seq<char>)
    requires
        forall|j: int| 0 <= j < recs.len() ==> #[trigger] recs[j].id@ != k,
    ensures
        without(recs, k) == recs,
    decreases recs.len(),
{
    if recs.len() > 0 {
        lemma_without_absent(recs.drop_last(), k);
        assert(recs.drop_last().push(recs.last()) =~= recs);
    }
}

/// The catalog with its search, sort and page.
pub struct AppDataFileList {
    /// The entries by id, in the catalog's order.
    pub list: IndexMap<String, CImage>,
    /// The ids of the entries that match `search_query`, in the catalog's order.
    pub filtered_ids: IndexSet<String>,
    /// The entries of the current page, as last computed.
    pub paged_list: Vec<CImage>,
    pub current_page: usize,
    pub items_per_page: usize,
    pub search_query: String,
    pub sorting: AppDataFileListSorting,
}

impl AppDataFileList {
    /// The id-entry pairs in the catalog's order.
    pub open spec fn entries(&self) -> Seq<(Seq<char>, CImage)> {
        map_entries(self.list)
    }

    /// The entries in the catalog's order.
    pub open spec fn images(&self) -> Seq<CImage> {
        records(self.entries())
    }

    /// The entries that match the search query.
    pub open spec fn hits(&self) -> Seq<CImage> {
        matching(self.images(), self.search_query@)
    }

    /// The entries that the current page shows.
    pub open spec fn page_view(&self) -> Seq<CImage> {
        page_slice(self.hits(), self.current_page as nat, self.items_per_page as nat)
    }

    /// Entries are unique by id and stored under their id, the filter holds
    /// the ids of the matching entries, and pages are counted from 1.
    pub open spec fn wf(&self) -> bool {
        &&& keys_unique(self.entries())
        &&& forall|i: int| 0 <= i < self.entries().len() ==> #[trigger] self.entries()[i].0 == self.entries()[i].1.id@
        &&& items_unique(set_items(self.filtered_ids))
        &&& set_items(self.filtered_ids) == ids_of(self.hits())
        &&& self.items_per_page > 0
        &&& self.current_page >= 1
    }

    proof fn lemma_ids_unique(&self)
        requires
            self.wf(),
        ensures
            ids_unique(self.images()),
            forall|i: int| 0 <= i < self.images().len() ==> #[trigger] self.images()[i] == self.entries()[i].1,
    {
        assert forall|i: int, j: int| 0 <= i < j < self.images().len() implies self.images()[i].id@
            != self.images()[j].id@ by {
            assert(self.entries()[i].0 == self.entries()[i].1.id@);
            assert(self.entries()[j].0 == self.entries()[j].1.id@);
        }
    }

    /// An empty catalog on page 1, with pages of [`ITEMS_PER_PAGE`] entries.
    pub fn default() -> (r: AppDataFileList)
        ensures
            r.wf(),
            r.images().len() == 0,
            r.paged_list@.len() == 0,
            r.current_page == 1,
            r.items_per_page == ITEMS_PER_PAGE,
            r.search_query@.len() == 0,
            r.sorting.column == FileListColumn::Filename,
            r.sorting.order == SortOrder::Ascending,
    {
        let r = AppDataFileList {
            list: entry_map_new(),
            filtered_ids: id_set_new(),
            paged_list: Vec::new(),
            current_page: 1,
            items_per_page: ITEMS_PER_PAGE,
            search_query: String::new(),
            sorting: AppDataFileListSorting::default(),
        };
        assert(r.images() =~= Seq::<CImage>::empty());
        assert(ids_of(r.hits()) =~= Seq::<Seq<char>>::empty());
        r
    }

    /// The same as [`AppDataFileList::default`].
    pub fn new() -> (r: AppDataFileList)
        ensures
            r.wf(),
            r.images().len() == 0,
            r.paged_list@.len() == 0,
            r.current_page == 1,
            r.items_per_page == ITEMS_PER_PAGE,
            r.search_query@.len() == 0,
            r.sorting.column == FileListColumn::Filename,
            r.sorting.order == SortOrder::Ascending,
    {
        Self::default()
    }

    /// Empties the catalog, its filter and its page. The query, the page
    /// number and the sort stay.
    pub fn clear(&mut self)
        requires
            old(self).wf(),
        ensures
            final(self).wf(),
            final(self).images().len() == 0,
            final(self).paged_list@.len() == 0,
            final(self).current_page == old(self).current_page,
            final(self).items_per_page == old(self).items_per_page,
            final(self).search_query == old(self).search_query,
            final(self).sorting == old(self).sorting,
    {
        self.list = entry_map_new();
        id_set_clear(&mut self.filtered_ids);
        self.paged_list = Vec::new();
        assert(self.images() =~= Seq::<CImage>::empty());
        assert(ids_of(self.hits()) =~= Seq::<Seq<char>>::empty());
    }

    /// The number of entries that match the query; all of them when the
    /// query is empty.
    pub fn len(&self) -> (r: usize)
        requires
            self.wf(),
        ensures
            r == self.hits().len(),
            self.search_query@.len() == 0 ==> r == self.images().len(),
    {
        proof {
            if self.search_query@.len() == 0 {
                lemma_matching_all(self.images(), self.search_query@);
            }
        }
        let n = id_set_len(&self.filtered_ids);
        if n != 0 {
            return n;
        }
        if self.search_query.as_str().unicode_len() != 0 {
            return 0;
        }
        entry_map_len(&self.list)
    }

    /// The number of entries, whatever the query.
    pub fn full_len(&self) -> (r: usize)
        ensures
            r == self.images().len(),
    {
        entry_map_len(&self.list)
    }

    /// The entries in the catalog's order.
    pub fn iter(&self) -> (r: Vec<&CImage>)
        ensures
            r@.len() == self.images().len(),
            forall|i: int| 0 <= i < r@.len() ==> *r@[i] == self.images()[i],
    {
        let n = entry_map_len(&self.list);
        let mut r: Vec<&CImage> = Vec::new();
        let mut i: usize = 0;
        while i < n
            invariant
                n == self.images().len(),
                i <= n,
                r@.len() == i,
                forall|j: int| 0 <= j < i ==> *r@[j] == self.images()[j],
            decreases n - i,
        {
            match entry_map_get_index(&self.list, i) {
                Some((_, c)) => r.push(c),
                None => {},
            }
            i = i + 1;
        }
        r
    }

    /// The entry with id `id`.
    pub fn get(&self, id: &str) -> (r: Option<&CImage>)
        requires
            self.wf(),
        ensures
            match r {
                Some(c) => exists|i: int| 0 <= i < self.images().len() && #[trigger] self.images()[i] == *c
                    && c.id@ == id@,
                None => forall|i: int| 0 <= i < self.images().len() ==> #[trigger] self.images()[i].id@ != id@,
            },
    {
        let r = entry_map_get(&self.list, id);
        proof {
            self.lemma_ids_unique();
            match r {
                Some(c) => {
                    let i = choose|i: int| 0 <= i < self.entries().len() && #[trigger] self.entries()[i].0 == id@
                        && *c == self.entries()[i].1;
                    assert(self.images()[i] == *c);
                },
                None => {
                    assert forall|i: int| 0 <= i < self.images().len() implies #[trigger] self.images()[i].id@
                        != id@ by {
                        assert(self.entries()[i].0 == self.entries()[i].1.id@);
                    }
                },
            }
        }
        r
    }

    /// Whether `cimage` matches `query`: the query occurs in its path or in
    /// its name.
    pub fn is_query_hit(&self, cimage: &CImage, query: &String) -> (r: bool)
        ensures
            r == is_hit(*cimage, query@),
    {
        text_contains(cimage.path.as_str(), query.as_str()) || text_contains(cimage.name.as_str(), query.as_str())
    }

    /// Fills the filter anew from the entries and the query.
    fn rebuild_filter(&mut self)
        requires
            keys_unique(old(self).entries()),
            forall|i: int| 0 <= i < old(self).entries().len() ==> #[trigger] old(self).entries()[i].0
                == old(self).entries()[i].1.id@,
            old(self).items_per_page > 0,
            old(self).current_page >= 1,
        ensures
            final(self).wf(),
            final(self).list == old(self).list,
            final(self).paged_list == old(self).paged_list,
            final(self).current_page == old(self).current_page,
            final(self).items_per_page == old(self).items_per_page,
            final(self).search_query == old(self).search_query,
            final(self).sorting == old(self).sorting,
    {
        id_set_clear(&mut self.filtered_ids);
        let n = entry_map_len(&self.list);
        let ghost recs = self.images();
        proof {
            assert forall|i: int, j: int| 0 <= i < j < recs.len() implies recs[i].id@ != recs[j].id@ by {
                assert(self.entries()[i].0 == self.entries()[i].1.id@);
                assert(self.entries()[j].0 == self.entries()[j].1.id@);
            }
            assert(recs.take(0) =~= Seq::<CImage>::empty());
            assert(ids_of(matching(recs.take(0), self.search_query@)) =~= Seq::<Seq<char>>::empty());
        }
        let mut i: usize = 0;
        while i < n
            invariant
                n == recs.len(),
                i <= n,
                recs == self.images(),
                ids_unique(recs),
                keys_unique(self.entries()),
                forall|k: int| 0 <= k < self.entries().len() ==> #[trigger] self.entries()[k].0 == self.entries()[k].1.id@,
                items_unique(set_items(self.filtered_ids)),
                set_items(self.filtered_ids) == ids_of(matching(recs.take(i as int), self.search_query@)),
                self.list == old(self).list,
                self.paged_list == old(self).paged_list,
                self.current_page == old(self).current_page,
                self.items_per_page == old(self).items_per_page,
                self.search_query == old(self).search_query,
                self.sorting == old(self).sorting,
            decreases n - i,
        {
            let ghost q = self.search_query@;
            assert(recs.take(i + 1).drop_last() =~= recs.take(i as int));
            assert(recs.take(i + 1).last() == recs[i as int]);
            match entry_map_get_index(&self.list, i) {
                Some((k, c)) => {
                    if self.is_query_hit(c, &self.search_query) {
                        proof {
                            lemma_matching_members(recs.take(i as int), q);
                            if set_items(self.filtered_ids).contains(k@) {
                                let j = choose|j: int| 0 <= j < set_items(self.filtered_ids).len()
                                    && set_items(self.filtered_ids)[j] == k@;
                                let m = matching(recs.take(i as int), q);
                                assert(recs.take(i as int).contains(m[j]));
                                let t = choose|t: int| 0 <= t < i && recs.take(i as int)[t] == m[j];
                                assert(recs[t].id@ == recs[i as int].id@);
                            }
                        }
                        let kk = k.clone();
                        id_set_insert(&mut self.filtered_ids, kk);
                        assert(set_items(self.filtered_ids) =~= ids_of(matching(recs.take(i + 1), q)));
                    } else {
                        assert(set_items(self.filtered_ids) =~= ids_of(matching(recs.take(i + 1), q)));
                    }
                },
                None => {},
            }
            i = i + 1;
        }
        assert(recs.take(n as int) =~= recs);
    }

    /// Puts `cimage` in: in the place of the entry with the same id, which
    /// it replaces, or last. The filter follows; the page is left as it was.
    pub fn insert(&mut self, cimage: CImage)
        requires
            old(self).wf(),
        ensures
            final(self).wf(),
            final(self).images() == upsert(old(self).images(), cimage),
            final(self).paged_list == old(self).paged_list,
            final(self).current_page == old(self).current_page,
            final(self).items_per_page == old(self).items_per_page,
            final(self).search_query == old(self).search_query,
            final(self).sorting == old(self).sorting,
    {
        let ghost old_recs = self.images();
        let ghost q = self.search_query@;
        proof {
            self.lemma_ids_unique();
        }
        let hit = self.is_query_hit(&cimage, &self.search_query);
        let id = cimage.id.clone();
        let id2 = cimage.id.clone();
        let ghost c = cimage;
        let prev = entry_map_insert(&mut self.list, id, cimage);
        match prev {
            Some(p) => {
                let ghost i = choose|i: int|
                    0 <= i < map_entries(old(self).list).len() && #[trigger] map_entries(old(self).list)[i].0
                        == c.id@ && p == map_entries(old(self).list)[i].1
                        && map_entries(self.list) == map_entries(old(self).list).update(i, (c.id@, c));
                proof {
                    assert(self.images() =~= old_recs.update(i, c));
                    assert(old_recs[i].id@ == c.id@);
                    assert forall|j: int| 0 <= j < old_recs.len() && #[trigger] old_recs[j].id@ == c.id@ implies j
                        == i by {}
                    assert(upsert(old_recs, c) == old_recs.update(i, c));
                    assert forall|k: int| 0 <= k < self.entries().len() implies #[trigger] self.entries()[k].0
                        == self.entries()[k].1.id@ by {
                        if k != i {
                            assert(self.entries()[k] == old(self).entries()[k]);
                        }
                    }
                }
                let was_hit = self.is_query_hit(&p, &self.search_query);
                if was_hit == hit {
                    proof {
                        lemma_matching_update(old_recs, q, i, c);
                    }
                } else {
                    self.rebuild_filter();
                }
            },
            None => {
                proof {
                    assert(self.images() =~= old_recs.push(c));
                    assert forall|j: int| 0 <= j < old_recs.len() implies #[trigger] old_recs[j].id@ != c.id@ by {
                        assert(old(self).entries()[j].0 == old_recs[j].id@);
                    }
                    assert(upsert(old_recs, c) == old_recs.push(c));
                    assert forall|k: int| 0 <= k < self.entries().len() implies #[trigger] self.entries()[k].0
                        == self.entries()[k].1.id@ by {
                        if k < old_recs.len() {
                            assert(self.entries()[k] == old(self).entries()[k]);
                        }
                    }
                    assert(self.images().drop_last() =~= old_recs);
                }
                if hit {
                    proof {
                        lemma_matching_members(old_recs, q);
                        if set_items(self.filtered_ids).contains(c.id@) {
                            let j = choose|j: int| 0 <= j < set_items(self.filtered_ids).len()
                                && set_items(self.filtered_ids)[j] == c.id@;
                            let m = matching(old_recs, q);
                            assert(old_recs.contains(m[j]));
                        }
                    }
                    id_set_insert(&mut self.filtered_ids, id2);
                    assert(set_items(self.filtered_ids) =~= ids_of(self.hits()));
                } else {
                    assert(set_items(self.filtered_ids) =~= ids_of(self.hits()));
                }
            },
        }
    }

    /// The same as [`AppDataFileList::insert`]: entries with a known id
    /// take the place of the stored one.
    pub fn replace(&mut self, cimage: CImage)
        requires
            old(self).wf(),
        ensures
            final(self).wf(),
            final(self).images() == upsert(old(self).images(), cimage),
            final(self).paged_list == old(self).paged_list,
            final(self).current_page == old(self).current_page,
            final(self).items_per_page == old(self).items_per_page,
            final(self).search_query == old(self).search_query,
            final(self).sorting == old(self).sorting,
    {
        self.insert(cimage)
    }

    /// Recomputes the page from the filter: the matching entries of the
    /// current page, none when the page lies past the end.
    fn compute_paged_list(&mut self)
        requires
            old(self).wf(),
        ensures
            final(self).wf(),
            final(self).paged_list@ == old(self).page_view(),
            final(self).list == old(self).list,
            final(self).filtered_ids == old(self).filtered_ids,
            final(self).current_page == old(self).current_page,
            final(self).items_per_page == old(self).items_per_page,
            final(self).search_query == old(self).search_query,
            final(self).sorting == old(self).sorting,
    {
        let ghost hits = self.hits();
        proof {
            self.lemma_ids_unique();
            lemma_matching_members(self.images(), self.search_query@);
        }
        let n = id_set_len(&self.filtered_ids);
        let per = self.items_per_page;
        let mut page: Vec<CImage> = Vec::new();
        let offset = match (self.current_page - 1).checked_mul(per) {
            Some(o) => o,
            None => n,
        };
        if entry_map_len(&self.list) == 0 || n == 0 || offset >= n {
            proof {
                if offset < n {
                    assert(self.images().len() == 0);
                    assert(hits.len() == 0);
                }
            }
            self.paged_list = page;
            assert(self.paged_list@ =~= old(self).page_view());
            return;
        }
        let end = if n - offset <= per {
            n
        } else {
            offset + per
        };
        let mut j: usize = offset;
        while j < end
            invariant
                self.wf(),
                *self == *old(self),
                hits == self.hits(),
                n == hits.len(),
                offset <= j <= end <= n,
                page@ == hits.subrange(offset as int, j as int),
                ids_unique(self.images()),
                forall|i: int| 0 <= i < self.images().len() ==> #[trigger] self.images()[i] == self.entries()[i].1,
                forall|t: int| 0 <= t < hits.len() ==> self.images().contains(#[trigger] hits[t]),
            decreases end - j,
        {
            let id = id_set_get_index(&self.filtered_ids, j);
            match id {
                Some(k) => {
                    assert(k@ == hits[j as int].id@);
                    match entry_map_get(&self.list, k.as_str()) {
                        Some(c) => {
                            proof {
                                let i = choose|i: int| 0 <= i < self.entries().len()
                                    && #[trigger] self.entries()[i].0 == k@ && *c == self.entries()[i].1;
                                let t = choose|t: int| 0 <= t < self.images().len()
                                    && self.images()[t] == hits[j as int];
                                assert(self.entries()[t].0 == self.images()[t].id@);
                                assert(self.images()[i].id@ == self.images()[t].id@);
                                assert(*c == hits[j as int]);
                            }
                            page.push(c.duplicate());
                        },
                        None => {
                            proof {
                                let t = choose|t: int| 0 <= t < self.images().len()
                                    && self.images()[t] == hits[j as int];
                                assert(self.entries()[t].0 == k@);
                            }
                        },
                    }
                },
                None => {},
            }
            assert(page@ =~= hits.subrange(offset as int, j + 1));
            j = j + 1;
        }
        self.paged_list = page;
        assert(self.paged_list@ =~= old(self).page_view());
    }

    /// Moves to page `page`, brought into `[1, page count]` (page 1 when
    /// nothing matches), and recomputes the page.
    pub fn change_page(&mut self, page: usize)
        requires
            old(self).wf(),
        ensures
            final(self).wf(),
            final(self).current_page == clamp_page(page as nat,
                page_count(old(self).hits().len(), old(self).items_per_page as nat)),
            final(self).paged_list@ == final(self).page_view(),
            final(self).list == old(self).list,
            final(self).filtered_ids == old(self).filtered_ids,
            final(self).items_per_page == old(self).items_per_page,
            final(self).search_query == old(self).search_query,
            final(self).sorting == old(self).sorting,
    {
        let n = self.len();
        let per = self.items_per_page;
        proof {
            if n % per != 0 {
                let (ni, pi) = (n as int, per as int);
                assert(ni / pi < ni || ni == 0) by (nonlinear_arith)
                    requires
                        pi > 1,
                        ni >= 0,
                ;
            }
        }
        let max_page = if n % per == 0 {
            n / per
        } else {
            n / per + 1
        };
        proof {
            let (ni, pi) = (n as int, per as int);
            assert(ni / pi * pi + ni % pi == ni) by (nonlinear_arith)
                requires
                    pi > 0,
            ;
            if n % per == 0 {
                assert((ni + pi - 1) / pi == ni / pi) by (nonlinear_arith)
                    requires
                        pi > 0,
                        ni % pi == 0,
                        ni >= 0,
                ;
            } else {
                assert((ni + pi - 1) / pi == ni / pi + 1) by (nonlinear_arith)
                    requires
                        pi > 0,
                        ni % pi != 0,
                        ni >= 0,
                ;
            }
            assert(max_page as nat == page_count(n as nat, per as nat));
        }
        let capped = if page < max_page {
            page
        } else {
            max_page
        };
        self.current_page = if capped < 1 {
            1
        } else {
            capped
        };
        self.compute_paged_list();
    }

    /// Sets the query and fills the filter anew from it; the page is then
    /// brought back into range.
    pub fn filter_list(&mut self, query: &String)
        requires
            old(self).wf(),
        ensures
            final(self).wf(),
            final(self).search_query@ == query@,
            final(self).list == old(self).list,
            final(self).sorting == old(self).sorting,
            final(self).items_per_page == old(self).items_per_page,
            final(self).hits() == matching(old(self).images(), query@),
            final(self).current_page == clamp_page(old(self).current_page as nat,
                page_count(final(self).hits().len(), old(self).items_per_page as nat)),
            final(self).paged_list@ == final(self).page_view(),
    {
        self.search_query = query.clone();
        self.rebuild_filter();
        let p = self.current_page;
        self.change_page(p);
    }

    /// Sorts the entries by the catalog's sort, then filters and pages
    /// them anew.
    pub fn sort_list(&mut self)
        requires
            old(self).wf(),
        ensures
            final(self).wf(),
            final(self).entries().to_multiset() == old(self).entries().to_multiset(),
            sorted_by(final(self).images(), old(self).sorting.column, old(self).sorting.order),
            final(self).search_query@ == old(self).search_query@,
            final(self).sorting == old(self).sorting,
            final(self).items_per_page == old(self).items_per_page,
            final(self).current_page == clamp_page(old(self).current_page as nat,
                page_count(final(self).hits().len(), old(self).items_per_page as nat)),
            final(self).paged_list@ == final(self).page_view(),
    {
        entry_map_sort(&mut self.list, self.sorting.column, self.sorting.order);
        proof {
            let e = self.entries();
            let o = old(self).entries();
            assert forall|i: int| 0 <= i < e.len() implies #[trigger] e[i].0 == e[i].1.id@ by {
                vstd::seq_lib::to_multiset_contains(e, e[i]);
                vstd::seq_lib::to_multiset_contains(o, e[i]);
                assert(e.contains(e[i]));
                assert(o.contains(e[i]));
            }
            assert forall|i: int, j: int| 0 <= i < j < self.images().len() implies compare_images_spec(
                self.images()[i],
                self.images()[j],
                self.sorting.column,
                self.sorting.order,
            ) != Ordering::Greater by {
                assert(self.images()[i] == e[i].1);
                assert(self.images()[j] == e[j].1);
            }
        }
        self.rebuild_filter();
        let p = self.current_page;
        self.change_page(p);
    }

    /// Sets the sort to `column` and `order` and sorts (see
    /// [`AppDataFileList::sort_list`]).
    pub fn sort_list_by(&mut self, column: FileListColumn, order: SortOrder)
        requires
            old(self).wf(),
        ensures
            final(self).wf(),
            final(self).entries().to_multiset() == old(self).entries().to_multiset(),
            sorted_by(final(self).images(), column, order),
            final(self).search_query@ == old(self).search_query@,
            final(self).sorting.column == column,
            final(self).sorting.order == order,
            final(self).items_per_page == old(self).items_per_page,
            final(self).current_page == clamp_page(old(self).current_page as nat,
                page_count(final(self).hits().len(), old(self).items_per_page as nat)),
            final(self).paged_list@ == final(self).page_view(),
    {
        self.sorting.column = column;
        self.sorting.order = order;
        self.sort_list();
    }

    /// Takes the entry with id `id` out, if there is one.
    fn remove(&mut self, id: &str)
        requires
            keys_unique(old(self).entries()),
            forall|i: int| 0 <= i < old(self).entries().len() ==> #[trigger] old(self).entries()[i].0
                == old(self).entries()[i].1.id@,
        ensures
            keys_unique(final(self).entries()),
            forall|i: int| 0 <= i < final(self).entries().len() ==> #[trigger] final(self).entries()[i].0
                == final(self).entries()[i].1.id@,
            final(self).images() == without(old(self).images(), id@),
            final(self).filtered_ids == old(self).filtered_ids,
            final(self).paged_list == old(self).paged_list,
            final(self).current_page == old(self).current_page,
            final(self).items_per_page == old(self).items_per_page,
            final(self).search_query == old(self).search_query,
            final(self).sorting == old(self).sorting,
    {
        let ghost recs = self.images();
        proof {
            assert forall|i: int, j: int| 0 <= i < j < recs.len() implies recs[i].id@ != recs[j].id@ by {
                assert(self.entries()[i].0 == self.entries()[i].1.id@);
                assert(self.entries()[j].0 == self.entries()[j].1.id@);
            }
        }
        let r = entry_map_shift_remove(&mut self.list, id);
        proof {
            match r {
                Some(p) => {
                    let i = choose|i: int| 0 <= i < old(self).entries().len()
                        && #[trigger] old(self).entries()[i].0 == id@ && p == old(self).entries()[i].1
                        && self.entries() == old(self).entries().remove(i);
                    assert(self.images() =~= recs.remove(i));
                    assert(recs[i].id@ == id@);
                    lemma_without_remove(recs, i);
                    assert forall|k: int| 0 <= k < self.entries().len() implies #[trigger] self.entries()[k].0
                        == self.entries()[k].1.id@ by {
                        if k < i {
                            assert(self.entries()[k] == old(self).entries()[k]);
                        } else {
                            assert(self.entries()[k] == old(self).entries()[k + 1]);
                        }
                    }
                },
                None => {
                    assert forall|j: int| 0 <= j < recs.len() implies #[trigger] recs[j].id@ != id@ by {
                        assert(old(self).entries()[j].0 == recs[j].id@);
                    }
                    lemma_without_absent(recs, id@);
                },
            }
        }
    }

    /// Takes the entries with the given ids out, then filters and pages the
    /// rest anew.
    pub fn remove_ids(&mut self, ids: &Vec<String>)
        requires
            old(self).wf(),
        ensures
            final(self).wf(),
            final(self).images() == without_all(old(self).images(), views(ids@)),
            final(self).current_page == old(self).current_page,
            final(self).items_per_page == old(self).items_per_page,
            final(self).search_query == old(self).search_query,
            final(self).sorting == old(self).sorting,
            final(self).paged_list@ == final(self).page_view(),
    {
        let ghost recs = self.images();
        let mut i: usize = 0;
        assert(views(ids@).take(0) =~= Seq::<Seq<char>>::empty());
        while i < ids.len()
            invariant
                i <= ids@.len(),
                keys_unique(self.entries()),
                forall|k: int| 0 <= k < self.entries().len() ==> #[trigger] self.entries()[k].0 == self.entries()[k].1.id@,
                self.images() == without_all(recs, views(ids@).take(i as int)),
                self.current_page == old(self).current_page,
                self.items_per_page == old(self).items_per_page,
                self.search_query == old(self).search_query,
                self.sorting == old(self).sorting,
                self.items_per_page > 0,
                self.current_page >= 1,
            decreases ids@.len() - i,
        {
            self.remove(ids[i].as_str());
            assert(views(ids@).take(i + 1).drop_last() =~= views(ids@).take(i as int));
            i = i + 1;
        }
        assert(views(ids@).take(ids@.len() as int) =~= views(ids@));
        self.rebuild_filter();
        self.compute_paged_list();
    }
}

/// Putting in an entry whose id is already in the catalog replaces that
/// entry where it stands: the number of entries and the places of all of
/// them stay, and only that place changes.
pub proof fn upsert_replaces_in_place(recs: Seq<CImage>, c: CImage, i: int)
    requires
        ids_unique(recs),
        0 <= i < recs.len(),
        recs[i].id@ == c.id@,
    ensures
        upsert(recs, c).len() == recs.len(),
        upsert(recs, c)[i] == c,
        forall|j: int| 0 <= j < recs.len() && j != i ==> upsert(recs, c)[j] == recs[j],
{
    let k = choose|k: int| 0 <= k < recs.len() && #[trigger] recs[k].id@ == c.id@;
    assert(k == i);
}

/// Putting in an entry with a new id adds it last and keeps the others.
pub proof fn upsert_appends_new(recs: Seq<CImage>, c: CImage)
    requires
        forall|i: int| 0 <= i < recs.len() ==> #[trigger] recs[i].id@ != c.id@,
    ensures
        upsert(recs, c) == recs.push(c),
{
}

/// Putting the same entry in twice leaves the catalog as putting it in
/// once.
pub proof fn upsert_is_idempotent(recs: Seq<CImage>, c: CImage)
    requires
        ids_unique(recs),
    ensures
        upsert(upsert(recs, c), c) == upsert(recs, c),
{
    if exists|i: int| 0 <= i < recs.len() && #[trigger] recs[i].id@ == c.id@ {
        let i = choose|i: int| 0 <= i < recs.len() && #[trigger] recs[i].id@ == c.id@;
        let u = upsert(recs, c);
        assert(u == recs.update(i, c));
        assert(u[i].id@ == c.id@);
        let j = choose|j: int| 0 <= j < u.len() && #[trigger] u[j].id@ == c.id@;
        if j != i {
            assert(recs[j].id@ == c.id@);
        }
        assert(u.update(i, c) =~= u);
    } else {
        let u = recs.push(c);
        assert(u[recs.len() as int].id@ == c.id@);
        let j = choose|j: int| 0 <= j < u.len() && #[trigger] u[j].id@ == c.id@;
        if j < recs.len() {
            assert(recs[j].id@ == c.id@);
        }
        assert(u.update(recs.len() as int, c) =~= u);
    }
}

/// The indices of the entries that match `q`.
pub open spec fn hit_indices(recs: Seq<CImage>, q: Seq<char>) -> Set<int> {
    Set::new(|i: int| 0 <= i < recs.len() && is_hit(recs[i], q))
}

/// After a search for `q` the catalog counts exactly the entries whose path
/// or name holds `q`; so it counts none when none does, however many
/// entries there are.
pub proof fn filter_counts_hits(recs: Seq<CImage>, q: Seq<char>)
    ensures
        hit_indices(recs, q).finite(),
        matching(recs, q).len() == hit_indices(recs, q).len(),
        hit_indices(recs, q).len() == 0 ==> matching(recs, q).len() == 0,
    decreases recs.len(),
{
    vstd::set_lib::lemma_int_range(0, recs.len() as int);
    assert(hit_indices(recs, q).subset_of(vstd::set_lib::set_int_range(0, recs.len() as int)));
    vstd::set_lib::lemma_len_subset(hit_indices(recs, q), vstd::set_lib::set_int_range(0, recs.len() as int));
    if recs.len() > 0 {
        let d = recs.drop_last();
        filter_counts_hits(d, q);
        let n = recs.len() - 1;
        if is_hit(recs.last(), q) {
            assert(hit_indices(recs, q) =~= hit_indices(d, q).insert(n));
            assert(!hit_indices(d, q).contains(n));
        } else {
            assert(hit_indices(recs, q) =~= hit_indices(d, q));
        }
    } else {
        assert(hit_indices(recs, q) =~= Set::<int>::empty());
    }
}

/// Whatever page is asked for, the page reached lies in `[1, page count]`
/// (page 1 when nothing matches), and a page never holds more than
/// `per_page` entries.
pub proof fn page_is_clamped(page: nat, hits: Seq<CImage>, per_page: nat)
    requires
        per_page > 0,
    ensures
        clamp_page(page, page_count(hits.len(), per_page)) >= 1,
        hits.len() > 0 ==> clamp_page(page, page_count(hits.len(), per_page)) <= page_count(hits.len(), per_page),
        page_slice(hits, clamp_page(page, page_count(hits.len(), per_page)), per_page).len() <= per_page,
{
    let n = hits.len() as int;
    let p = per_page as int;
    if n > 0 {
        assert((n + p - 1) / p >= 1) by (nonlinear_arith)
            requires
                n >= 1,
                p >= 1,
        ;
    }
}

proof fn lemma_sorted_size_drop_last(a: Seq<(Seq<char>, CImage)>, order: SortOrder)
    requires
        a.len() > 0,
        sorted_by(records(a), FileListColumn::Size, order),
    ensures
        sorted_by(records(a.drop_last()), FileListColumn::Size, order),
{
    assert forall|i: int, j: int| 0 <= i < j < records(a.drop_last()).len() implies compare_images_spec(
        records(a.drop_last())[i],
        records(a.drop_last())[j],
        FileListColumn::Size,
        order,
    ) != Ordering::Greater by {
        assert(records(a.drop_last())[i] == records(a)[i]);
        assert(records(a.drop_last())[j] == records(a)[j]);
    }
}

proof fn lemma_sorted_size_drop_first(a: Seq<(Seq<char>, CImage)>, order: SortOrder)
    requires
        a.len() > 0,
        sorted_by(records(a), FileListColumn::Size, order),
    ensures
        sorted_by(records(a.drop_first()), FileListColumn::Size, order),
{
    assert forall|i: int, j: int| 0 <= i < j < records(a.drop_first()).len() implies compare_images_spec(
        records(a.drop_first())[i],
        records(a.drop_first())[j],
        FileListColumn::Size,
        order,
    ) != Ordering::Greater by {
        assert(records(a.drop_first())[i] == records(a)[i + 1]);
        assert(records(a.drop_first())[j] == records(a)[j + 1]);
    }
}

/// Entries whose sizes all differ, sorted by size ascending and sorted by
/// size descending, come out in exactly reversed orders.
pub proof fn size_sorts_are_reversed(a: Seq<(Seq<char>, CImage)>, b: Seq<(Seq<char>, CImage)>)
    requires
        a.to_multiset() == b.to_multiset(),
        forall|i: int, j: int| 0 <= i < j < a.len() ==> a[i].1.size != a[j].1.size,
        sorted_by(records(a), FileListColumn::Size, SortOrder::Ascending),
        sorted_by(records(b), FileListColumn::Size, SortOrder::Descending),
    ensures
        b == a.reverse(),
    decreases a.len(),
{
    vstd::seq_lib::to_multiset_len(a);
    vstd::seq_lib::to_multiset_len(b);
    if a.len() == 0 {
        assert(b =~= a.reverse());
    } else {
        let n = a.len() - 1;
        let top = a[n];
        vstd::seq_lib::to_multiset_contains(a, top);
        vstd::seq_lib::to_multiset_contains(b, top);
        vstd::seq_lib::to_multiset_contains(b, b[0]);
        vstd::seq_lib::to_multiset_contains(a, b[0]);
        let k = choose|k: int| 0 <= k < a.len() && a[k] == b[0];
        let t = choose|t: int| 0 <= t < b.len() && b[t] == top;
        assert(records(a)[k] == a[k].1);
        assert(records(a)[n] == a[n].1);
        assert(records(b)[0] == b[0].1);
        assert(records(b)[t] == b[t].1);
        if k != n {
            assert(compare_images_spec(records(a)[k], records(a)[n], FileListColumn::Size, SortOrder::Ascending)
                != Ordering::Greater);
        }
        if t != 0 {
            assert(compare_images_spec(records(b)[0], records(b)[t], FileListColumn::Size, SortOrder::Descending)
                != Ordering::Greater);
        }
        assert(a[k].1.size == a[n].1.size);
        assert(k == n);
        vstd::seq_lib::to_multiset_remove(a, n);
        vstd::seq_lib::to_multiset_remove(b, 0);
        assert(a.remove(n) =~= a.drop_last());
        assert(b.remove(0) =~= b.drop_first());
        lemma_sorted_size_drop_last(a, SortOrder::Ascending);
        lemma_sorted_size_drop_first(b, SortOrder::Descending);
        size_sorts_are_reversed(a.drop_last(), b.drop_first());
        assert forall|i: int| 0 <= i < b.len() implies b[i] == a.reverse()[i] by {
            if i > 0 {
                assert(b[i] == b.drop_first()[i - 1]);
                assert(a.drop_last().reverse()[i - 1] == a.drop_last()[n - 1 - (i - 1)]);
            }
        }
        assert(b =~= a.reverse());
    }
}

} // verus!
