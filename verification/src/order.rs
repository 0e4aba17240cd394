//! Orders: how single values compare, and the sorts of the outside crates.

use crate::text;
use rayon::iter::{IntoParallelIterator, IntoParallelRefIterator, ParallelIterator};
use rayon::slice::ParallelSliceMut;
use std::cmp::Ordering;
use vstd::prelude::*;

verus! {

/// Whether a comparison says what the strict order `lt`, taken both ways, says.
pub open spec fn order_agrees(o: Ordering, before: bool, after: bool) -> bool {
    (o is Less <==> before) && (o is Greater <==> after)
}

/// `str::cmp`: texts compare lexicographically by code point.
#[verifier::external_body]
pub(crate) fn text_order(a: &str, b: &str) -> (o: Ordering)
    ensures
        order_agrees(o, text::text_lt(a@, b@), text::text_lt(b@, a@)),
{
    a.cmp(b)
}

/// How two signed numbers compare.
pub(crate) fn signed_order(a: i64, b: i64) -> (o: Ordering)
    ensures
        order_agrees(o, a < b, b < a),
{
    if a < b {
        Ordering::Less
    } else if b < a {
        Ordering::Greater
    } else {
        Ordering::Equal
    }
}

/// How two unsigned numbers compare.
pub(crate) fn unsigned_order(a: u32, b: u32) -> (o: Ordering)
    ensures
        order_agrees(o, a < b, b < a),
{
    if a < b {
        Ordering::Less
    } else if b < a {
        Ordering::Greater
    } else {
        Ordering::Equal
    }
}

/// The comparison taken the other way.
pub(crate) fn order_turned(o: Ordering) -> (r: Ordering)
    ensures
        r is Less <==> o is Greater,
        r is Greater <==> o is Less,
{
    match o {
        Ordering::Less => Ordering::Greater,
        Ordering::Equal => Ordering::Equal,
        Ordering::Greater => Ordering::Less,
    }
}

/// Whether a comparison can be called on all pairs of the items and orders them:
/// both ways round it says the opposite, and it is transitive.
pub open spec fn order_sorts<T, F: Fn(&T, &T) -> Ordering>(f: F, s: Seq<T>) -> bool {
    &&& forall|a: T, b: T| s.contains(a) && s.contains(b) ==> #[trigger] f.requires((&a, &b))
    &&& forall|a: T, b: T, o: Ordering, p: Ordering|
        s.contains(a) && s.contains(b) && #[trigger] f.ensures((&a, &b), o) && #[trigger] f.ensures(
            (&b, &a),
            p,
        ) ==> order_agrees(o, p is Greater, p is Less)
    &&& forall|a: T, b: T, c: T, o: Ordering, p: Ordering, q: Ordering|
        s.contains(a) && s.contains(b) && s.contains(c) && #[trigger] f.ensures((&a, &b), o)
            && #[trigger] f.ensures((&b, &c), p) && #[trigger] f.ensures((&a, &c), q) && !(
        o is Greater) && !(p is Greater) ==> !(q is Greater)
}

/// Whether the items stand in the order of a comparison: no earlier one compares
/// greater than a later one.
pub open spec fn order_holds<T, F: Fn(&T, &T) -> Ordering>(f: F, s: Seq<T>) -> bool {
    forall|i: int, j: int| 0 <= i < j < s.len() ==> #[trigger] order_not_after(f, s[i], s[j])
}

/// Whether a comparison can say that `a` does not come after `b`.
pub open spec fn order_not_after<T, F: Fn(&T, &T) -> Ordering>(f: F, a: T, b: T) -> bool {
    exists|o: Ordering| #[trigger] f.ensures((&a, &b), o) && !(o is Greater)
}

/// Whether a comparison can say that `a` comes before `b`.
pub open spec fn order_before<T, F: Fn(&T, &T) -> Ordering>(f: F, a: T, b: T) -> bool {
    exists|o: Ordering| #[trigger] f.ensures((&a, &b), o) && o is Less
}

/// `ParallelSliceMut::par_sort_unstable_by` of rayon: the same items, in the order
/// of the comparison, which has to order them. Items that compare equal may
/// change places.
#[verifier::external_body]
pub(crate) fn par_sort_unstable_by<T: Send, F: Fn(&T, &T) -> Ordering + Sync>(
    items: &mut Vec<T>,
    f: F,
)
    requires
        order_sorts(f, old(items)@),
    ensures
        final(items)@.to_multiset() == old(items)@.to_multiset(),
        order_holds(f, final(items)@),
{
    items.par_sort_unstable_by(f);
}

/// `IntoParallelIterator` of a range of rayon, filtered and collected: the numbers
/// below `count` that the test keeps, in ascending order.
#[verifier::external_body]
pub(crate) fn par_filter<F: Fn(u32) -> bool + Sync + Send>(count: u32, keep: F) -> (r: Vec<u32>)
    requires
        forall|i: u32| i < count ==> #[trigger] keep.requires((i,)),
    ensures
        forall|i: int, j: int| 0 <= i < j < r@.len() ==> r@[i] < r@[j],
        forall|i: u32|
            #![trigger r@.contains(i)]
            r@.contains(i) ==> i < count && keep.ensures((i,), true),
        forall|i: u32|
            #![trigger r@.contains(i)]
            i < count && !r@.contains(i) ==> keep.ensures((i,), false),
{
    (0..count).into_par_iter().filter(|i| keep(*i)).collect()
}

/// `ParallelIterator::map` of rayon over the items, collected: the result of each
/// item at its place.
#[verifier::external_body]
pub(crate) fn par_map<T: Sync, U: Send, F: Fn(&T) -> U + Sync + Send>(
    items: &Vec<T>,
    f: F,
) -> (r: Vec<U>)
    requires
        forall|i: int| 0 <= i < items@.len() ==> f.requires((&#[trigger] items@[i],)),
    ensures
        r@.len() == items@.len(),
        forall|i: int| 0 <= i < r@.len() ==> f.ensures((&items@[i],), #[trigger] r@[i]),
{
    items.par_iter().map(f).collect()
}

/// Whether `after` holds the items of `before`, the `i`-th one from the place
/// `from[i]`.
pub open spec fn arranged<T>(before: Seq<T>, after: Seq<T>, from: Seq<int>) -> bool {
    &&& from.len() == after.len()
    &&& before.len() == after.len()
    &&& from.no_duplicates()
    &&& forall|i: int|
        0 <= i < from.len() ==> 0 <= #[trigger] from[i] < before.len() && after[i]
            == before[from[i]]
}

/// Whether of two items the earlier one compares less or already came first.
pub open spec fn order_keeps_ties<T, F: Fn(&T, &T) -> Ordering>(
    f: F,
    after: Seq<T>,
    from: Seq<int>,
) -> bool {
    forall|i: int, j: int|
        0 <= i < j < after.len() ==> from[i] < from[j] || #[trigger] order_before(f, after[i], after[j])
}

/// `slice::sort_by`: the same items, in the order of the comparison, which has to
/// order them. Items that compare equal keep their order.
#[verifier::external_body]
pub(crate) fn sort_by<T, F: Fn(&T, &T) -> Ordering>(items: &mut Vec<T>, f: F)
    requires
        order_sorts(f, old(items)@),
    ensures
        order_holds(f, final(items)@),
        exists|from: Seq<int>|
            arranged(old(items)@, final(items)@, from) && order_keeps_ties(f, final(items)@, from),
{
    items.sort_by(f);
}

/// `slice::sort_unstable`: the same numbers in ascending order.
#[verifier::external_body]
pub(crate) fn sort_numbers(items: &mut Vec<u32>)
    ensures
        final(items)@.to_multiset() == old(items)@.to_multiset(),
        forall|i: int, j: int| 0 <= i < j < final(items)@.len() ==> final(items)@[i] <= final(items)@[j],
{
    items.sort_unstable();
}

} // verus!
