//! Row sets and per-split masks: deleted documents and shadowed rows are
//! masked before any cut to the best hits.

use roaring::{RoaringBitmap, RoaringTreemap};
use vstd::prelude::*;

verus! {

/// `roaring::RoaringTreemap`, a set of 64-bit row ids.
#[verifier::external_type_specification]
#[verifier::external_body]
pub struct ExRoaringTreemap(RoaringTreemap);

/// `roaring::RoaringBitmap`, a set of 32-bit document ids.
#[verifier::external_type_specification]
#[verifier::external_body]
pub struct ExRoaringBitmap(RoaringBitmap);

pub uninterp spec fn treemap_rows(t: RoaringTreemap) -> Set<u64>;

pub uninterp spec fn bitmap_docs(b: RoaringBitmap) -> Set<u32>;

/// A set that does not hold every 64-bit number, so that its size is a
/// 64-bit number.
pub open spec fn countable(t: RoaringTreemap) -> bool {
    treemap_rows(t).finite() && treemap_rows(t).len() <= u64::MAX
}

/// `RoaringTreemap::contains`: membership.
#[verifier::external_body]
pub(crate) fn has_row(t: &RoaringTreemap, row: u64) -> (r: bool)
    ensures
        r == treemap_rows(*t).contains(row),
{
    t.contains(row)
}

/// `RoaringTreemap::len`: the number of rows. The sum of the parts' sizes
/// overflows only for the set of every 64-bit number.
#[verifier::external_body]
pub(crate) fn row_count(t: &RoaringTreemap) -> (r: u64)
    requires
        countable(*t),
    ensures
        r == treemap_rows(*t).len(),
{
    t.len()
}

/// `RoaringTreemap::remove`: takes a row out.
#[verifier::external_body]
pub(crate) fn drop_row(t: &mut RoaringTreemap, row: u64)
    ensures
        treemap_rows(*final(t)) == treemap_rows(*old(t)).remove(row),
{
    t.remove(row);
}

proof fn rows_below(n: nat)
    requires
        n <= u64::MAX + 1,
    ensures
        Set::new(|x: u64| x < n).finite(),
        Set::new(|x: u64| x < n).len() == n,
    decreases n,
{
    let s = Set::new(|x: u64| x < n);
    if n == 0 {
        assert(s =~= Set::empty());
    } else {
        let m = (n - 1) as nat;
        rows_below(m);
        assert(s =~= Set::new(|x: u64| x < m).insert(m as u64));
    }
}

proof fn sets_that_lack_a_row(s: Set<u64>, row: u64)
    requires
        !s.contains(row),
    ensures
        s.finite(),
        s.len() <= u64::MAX,
{
    let all = Set::new(|x: u64| x < u64::MAX + 1);
    rows_below((u64::MAX + 1) as nat);
    assert(s.subset_of(all.remove(row)));
    vstd::set_lib::lemma_len_subset(s, all.remove(row));
}

/// Whether the size of a set is a 64-bit number.
pub fn is_countable(t: &RoaringTreemap) -> (r: bool)
    ensures
        r == countable(*t),
{
    let ghost all = treemap_rows(*t);
    if !has_row(t, u64::MAX) {
        proof {
            sets_that_lack_a_row(all, u64::MAX);
        }
        return true;
    }
    let mut rest = copy_rows(t);
    drop_row(&mut rest, u64::MAX);
    proof {
        sets_that_lack_a_row(treemap_rows(rest), u64::MAX);
        assert(all =~= treemap_rows(rest).insert(u64::MAX));
    }
    row_count(&rest) < u64::MAX
}

/// `RoaringTreemap::is_empty`: whether there is no row.
#[verifier::external_body]
pub(crate) fn no_rows(t: &RoaringTreemap) -> (r: bool)
    ensures
        r == (treemap_rows(*t) =~= Set::empty()),
{
    t.is_empty()
}

/// `RoaringTreemap::new`: no row.
#[verifier::external_body]
pub(crate) fn empty_rows() -> (r: RoaringTreemap)
    ensures
        treemap_rows(r) == Set::<u64>::empty(),
{
    RoaringTreemap::new()
}

/// `RoaringTreemap::insert`: adds a row.
#[verifier::external_body]
pub(crate) fn add_row(t: &mut RoaringTreemap, row: u64)
    ensures
        treemap_rows(*final(t)) == treemap_rows(*old(t)).insert(row),
{
    t.insert(row);
}

/// `RoaringTreemap::clone`: the same rows.
#[verifier::external_body]
pub(crate) fn copy_rows(t: &RoaringTreemap) -> (r: RoaringTreemap)
    ensures
        treemap_rows(r) == treemap_rows(*t),
{
    t.clone()
}

/// The rows below `at`.
pub open spec fn below(s: Set<u64>, at: u64) -> Set<u64> {
    s.filter(|row: u64| row < at)
}

/// The rows from `at` on.
pub open spec fn from(s: Set<u64>, at: u64) -> Set<u64> {
    s.filter(|row: u64| row >= at)
}

/// `RoaringTreemap::remove_range` from `at` on: the rows below it stay. The
/// count of removed rows overflows only for the set of every 64-bit number.
#[verifier::external_body]
pub(crate) fn cut_from(t: &mut RoaringTreemap, at: u64)
    requires
        countable(*old(t)),
    ensures
        treemap_rows(*final(t)) == below(treemap_rows(*old(t)), at),
{
    t.remove_range(at..);
}

/// `RoaringTreemap` difference: the rows of `a` that are not in `b`.
#[verifier::external_body]
pub(crate) fn rows_without(a: &RoaringTreemap, b: &RoaringTreemap) -> (r: RoaringTreemap)
    ensures
        treemap_rows(r) == treemap_rows(*a).difference(treemap_rows(*b)),
{
    a - b
}

/// `RoaringTreemap` union: the rows of either. The sizes that it compares
/// overflow only for the set of every 64-bit number.
#[verifier::external_body]
pub(crate) fn rows_of_either(a: &RoaringTreemap, b: &RoaringTreemap) -> (r: RoaringTreemap)
    requires
        countable(*a),
        countable(*b),
    ensures
        treemap_rows(r) == treemap_rows(*a).union(treemap_rows(*b)),
{
    a | b
}

/// Row ids in ascending order, none twice.
pub open spec fn ascending(s: Seq<u64>) -> bool {
    forall|i: int, j: int| 0 <= i < j < s.len() ==> #[trigger] s[i] < #[trigger] s[j]
}

/// A set whose row ids fit into one allocation.
pub open spec fn listable(t: RoaringTreemap) -> bool {
    treemap_rows(t).finite() && treemap_rows(t).len() * 8 <= isize::MAX
}

/// `RoaringTreemap::iter`: the rows in ascending order. Collecting them
/// panics when they do not fit into one allocation.
#[verifier::external_body]
pub(crate) fn rows_in_order(t: &RoaringTreemap) -> (r: Vec<u64>)
    requires
        listable(*t),
    ensures
        ascending(r@),
        forall|row: u64| r@.contains(row) <==> treemap_rows(*t).contains(row),
{
    t.iter().collect()
}

/// `RoaringBitmap::contains`: membership.
#[verifier::external_body]
pub(crate) fn has_doc(b: &RoaringBitmap, doc: u32) -> (r: bool)
    ensures
        r == bitmap_docs(*b).contains(doc),
{
    b.contains(doc)
}

/// `RoaringBitmap::new`: no document.
#[verifier::external_body]
pub(crate) fn empty_docs() -> (r: RoaringBitmap)
    ensures
        bitmap_docs(r) == Set::<u32>::empty(),
{
    RoaringBitmap::new()
}

/// `RoaringBitmap::insert`: adds a document.
#[verifier::external_body]
pub(crate) fn add_doc(b: &mut RoaringBitmap, doc: u32)
    ensures
        bitmap_docs(*final(b)) == bitmap_docs(*old(b)).insert(doc),
{
    b.insert(doc);
}

/// `RoaringBitmap` difference: the documents of `a` that are not in `b`.
#[verifier::external_body]
pub(crate) fn docs_without(a: &RoaringBitmap, b: &RoaringBitmap) -> (r: RoaringBitmap)
    ensures
        bitmap_docs(r) == bitmap_docs(*a).difference(bitmap_docs(*b)),
{
    a - b
}

/// Document ids in ascending order, none twice.
pub open spec fn docs_ascend(s: Seq<u32>) -> bool {
    forall|i: int, j: int| 0 <= i < j < s.len() ==> #[trigger] s[i] < #[trigger] s[j]
}

/// `RoaringBitmap::iter`: the documents in ascending order.
#[verifier::external_body]
pub(crate) fn docs_in_order(b: &RoaringBitmap) -> (r: Vec<u32>)
    ensures
        docs_ascend(r@),
        forall|doc: u32| r@.contains(doc) <==> bitmap_docs(*b).contains(doc),
{
    b.iter().collect()
}

/// A set without some row is finite, and its size is a 64-bit number.
pub proof fn a_missing_row_bounds_the_count(s: Set<u64>, row: u64)
    requires
        !s.contains(row),
    ensures
        s.finite(),
        s.len() <= u64::MAX,
{
    let all = vstd::set_lib::set_int_range(0, u64::MAX + 1);
    vstd::set_lib::lemma_int_range(0, u64::MAX + 1);
    let rest = all.remove(row as int);
    let rows = rest.map(|i: int| i as u64);
    vstd::set_lib::lemma_map_size_bound(rest, rows, |i: int| i as u64);
    assert forall|x: u64| s.contains(x) implies rows.contains(x) by {
        assert(rest.contains(x as int));
    }
    vstd::set_lib::lemma_len_subset(s, rows);
}

/// Whether a row is missing from the set, which can be counted then.
pub fn misses(t: &RoaringTreemap, row: u64) -> (r: bool)
    ensures
        r == !treemap_rows(*t).contains(row),
        r ==> countable(*t),
{
    let missing = !has_row(t, row);
    proof {
        if missing {
            a_missing_row_bounds_the_count(treemap_rows(*t), row);
        }
    }
    missing
}

/// A set of rows of a view, in the one row-id space.
pub enum RowSet {
    /// Every row of the view.
    All,
    Rows(RoaringTreemap),
}

impl RowSet {
    /// The rows of the set.
    pub open spec fn rows(self) -> Set<u64> {
        match self {
            RowSet::All => Set::full(),
            RowSet::Rows(t) => treemap_rows(t),
        }
    }

    /// Whether `row_id` is in the set.
    pub fn contains(&self, row_id: u64) -> (r: bool)
        ensures
            r == self.rows().contains(row_id),
    {
        match self {
            RowSet::All => true,
            RowSet::Rows(t) => has_row(t, row_id),
        }
    }
}

/// The masked document ids of one split: deleted by its delete bitmap, or
/// shadowed by the tail.
pub struct SplitMask {
    pub deleted: RoaringBitmap,
    pub shadowed: RoaringBitmap,
}

impl SplitMask {
    /// Whether `doc` is deleted or shadowed.
    pub fn masked(&self, doc: u32) -> (r: bool)
        ensures
            r == (bitmap_docs(self.deleted).contains(doc) || bitmap_docs(self.shadowed).contains(
                doc,
            )),
    {
        has_doc(&self.deleted, doc) || has_doc(&self.shadowed, doc)
    }
}

/// What a search of the durable rows is restricted to.
pub enum RowMask {
    Allow(RoaringTreemap),
    Block(RoaringTreemap),
}

/// Whether a mask lets a row through.
pub open spec fn admitted(m: RowMask, row: u64) -> bool {
    match m {
        RowMask::Allow(t) => treemap_rows(t).contains(row),
        RowMask::Block(t) => !treemap_rows(t).contains(row),
    }
}

impl RowMask {
    /// Whether the mask lets `row` through.
    pub fn admits(&self, row: u64) -> (r: bool)
        ensures
            r == admitted(*self, row),
    {
        match self {
            RowMask::Allow(t) => has_row(t, row),
            RowMask::Block(t) => !has_row(t, row),
        }
    }

    /// Whether a scan needs the mask: blocking nothing needs none.
    pub fn restricts(&self) -> (r: bool)
        ensures
            r == (self matches RowMask::Block(t) ==> treemap_rows(*t) != Set::<u64>::empty()),
    {
        match self {
            RowMask::Allow(_) => true,
            RowMask::Block(t) => !no_rows(t),
        }
    }
}

/// A filter's rows split at `base`, where the tail's rows begin: the
/// durable ones that the tail does not shadow, and the tail's.
pub fn split_rows(rows: &RoaringTreemap, shadow: &RoaringTreemap, base: u64) -> (r: (
    RoaringTreemap,
    RoaringTreemap,
))
    requires
        countable(*rows),
    ensures
        treemap_rows(r.0) == below(treemap_rows(*rows), base).difference(treemap_rows(*shadow)),
        treemap_rows(r.1) == from(treemap_rows(*rows), base),
{
    let mut durable = copy_rows(rows);
    cut_from(&mut durable, base);
    let tail = rows_without(rows, &durable);
    proof {
        assert(treemap_rows(tail) =~= from(treemap_rows(*rows), base));
    }
    (rows_without(&durable, shadow), tail)
}

} // verus!
