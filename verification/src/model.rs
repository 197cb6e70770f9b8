//! What the algorithm computes, stated over mathematical sequences.

use crate::seq::{DiffItem, Difference};
use vstd::prelude::*;

verus! {

/// Length of a longest common subsequence of `a` and `b`.
pub open spec fn lcs_len<T>(a: Seq<T>, b: Seq<T>) -> nat
    decreases a.len() + b.len(),
{
    if a.len() == 0 || b.len() == 0 {
        0
    } else if a.last() == b.last() {
        lcs_len(a.drop_last(), b.drop_last()) + 1
    } else {
        let without_a = lcs_len(a.drop_last(), b);
        let without_b = lcs_len(a, b.drop_last());
        if without_a >= without_b {
            without_a
        } else {
            without_b
        }
    }
}

/// Whether `s` can be had from `t` by deleting elements.
pub open spec fn is_subsequence<T>(s: Seq<T>, t: Seq<T>) -> bool
    decreases t.len(),
{
    if s.len() == 0 {
        true
    } else if t.len() == 0 {
        false
    } else {
        ||| (s.last() == t.last() && is_subsequence(s.drop_last(), t.drop_last()))
        ||| is_subsequence(s, t.drop_last())
    }
}

/// The last line of the score matrix of `a` against `b`: entry `j` is the
/// length of a longest common subsequence of `a` and the first `j` elements
/// of `b`.
pub open spec fn score_line<T>(a: Seq<T>, b: Seq<T>) -> Seq<nat> {
    Seq::new(b.len() + 1, |j: int| lcs_len(a, b.take(j)))
}

/// What is gained by cutting `b` at `j`: the best that `left` does against
/// the part before the cut plus the best that `right` does against the part
/// after it.
pub open spec fn split_score<T>(left: Seq<T>, right: Seq<T>, b: Seq<T>, j: int) -> nat {
    lcs_len(left, b.take(j)) + lcs_len(right, b.skip(j))
}

/// Whether `k` is the leftmost cut of `b` with the highest score.
pub open spec fn is_split_point<T>(left: Seq<T>, right: Seq<T>, b: Seq<T>, k: int) -> bool {
    &&& 0 <= k <= b.len()
    &&& forall|j: int| 0 <= j < k ==> split_score(left, right, b, j) < split_score(left, right, b, k)
    &&& forall|j: int|
        k <= j <= b.len() ==> split_score(left, right, b, j) <= split_score(left, right, b, k)
}

/// The leftmost cut of `b` with the highest score.
pub open spec fn split_point<T>(left: Seq<T>, right: Seq<T>, b: Seq<T>) -> int {
    choose|k: int| is_split_point(left, right, b, k)
}

/// The tag that element `j` of `b` gets when it is aligned with the single
/// element `x`: the first element equal to `x` is shared, every other one
/// belongs to `b` alone.
pub open spec fn tag_single<T>(x: T, b: Seq<T>, j: int) -> DiffItem<T> {
    if b[j] == x && !b.take(j).contains(x) {
        DiffItem::Both(b[j])
    } else {
        DiffItem::Second(b[j])
    }
}

/// The elements of `b`, each tagged by `tag_single`.
pub open spec fn tagged_single<T>(x: T, b: Seq<T>) -> Seq<DiffItem<T>> {
    Seq::new(b.len(), |j: int| tag_single(x, b, j))
}

/// The alignment of the one-element sequence `x` with `b`: the tagged
/// elements of `b`, followed by `x` on its own where `b` does not hold it.
pub open spec fn single_diff<T>(x: T, b: Seq<T>) -> Seq<DiffItem<T>> {
    if b.contains(x) {
        tagged_single(x, b)
    } else {
        tagged_single(x, b).push(DiffItem::First(x))
    }
}

/// Every element of `a`, tagged as present in the first sequence only.
pub open spec fn all_first<T>(a: Seq<T>) -> Seq<DiffItem<T>> {
    a.map_values(|x: T| DiffItem::First(x))
}

/// Every element of `b`, tagged as present in the second sequence only.
pub open spec fn all_second<T>(b: Seq<T>) -> Seq<DiffItem<T>> {
    b.map_values(|y: T| DiffItem::Second(y))
}

/// The alignment of `a` and `b`. An empty side leaves the other side on its
/// own; a single element of `a` is matched with its first occurrence in
/// `b`; a longer `a` is halved, `b` is cut at the split point of the two
/// halves, and the alignments of the two pairs of parts follow one another.
pub open spec fn diff_of<T>(a: Seq<T>, b: Seq<T>) -> Seq<DiffItem<T>>
    decreases a.len(),
{
    if a.len() == 0 {
        all_second(b)
    } else if b.len() == 0 {
        all_first(a)
    } else if a.len() == 1 {
        single_diff(a[0], b)
    } else {
        let mid = (a.len() / 2) as int;
        let k = split_point(a.take(mid), a.skip(mid), b);
        diff_of(a.take(mid), b.take(k)) + diff_of(a.skip(mid), b.skip(k))
    }
}

/// The longest common subsequence of `a` and `b` that the alignment picks:
/// its shared elements.
pub open spec fn lcs_of<T>(a: Seq<T>, b: Seq<T>) -> Seq<T>
    decreases a.len(),
{
    if a.len() == 0 || b.len() == 0 {
        Seq::empty()
    } else if a.len() == 1 {
        if b.contains(a[0]) {
            seq![a[0]]
        } else {
            Seq::empty()
        }
    } else {
        let mid = (a.len() / 2) as int;
        let k = split_point(a.take(mid), a.skip(mid), b);
        lcs_of(a.take(mid), b.take(k)) + lcs_of(a.skip(mid), b.skip(k))
    }
}

/// Tags of elements that occur in the first sequence.
pub open spec fn in_first<T>() -> spec_fn(DiffItem<T>) -> bool {
    |item: DiffItem<T>| !(item is Second)
}

/// Tags of elements that occur in the second sequence.
pub open spec fn in_second<T>() -> spec_fn(DiffItem<T>) -> bool {
    |item: DiffItem<T>| !(item is First)
}

/// The tag of elements that occur in both sequences.
pub open spec fn in_both<T>() -> spec_fn(DiffItem<T>) -> bool {
    |item: DiffItem<T>| item is Both
}

/// Tags that the sink `S` keeps.
pub open spec fn kept_by<T, S: Difference<T>>() -> spec_fn(DiffItem<T>) -> bool {
    |item: DiffItem<T>| S::keeps(item)
}

/// Strips the tag of an element.
pub open spec fn untag<T>() -> spec_fn(DiffItem<T>) -> T {
    |item: DiffItem<T>| item.value()
}

/// The first sequence as an alignment shows it.
pub open spec fn first_side<T>(d: Seq<DiffItem<T>>) -> Seq<T> {
    d.filter(in_first()).map_values(untag())
}

/// The second sequence as an alignment shows it.
pub open spec fn second_side<T>(d: Seq<DiffItem<T>>) -> Seq<T> {
    d.filter(in_second()).map_values(untag())
}

/// The elements that an alignment shows in both sequences.
pub open spec fn common_side<T>(d: Seq<DiffItem<T>>) -> Seq<T> {
    d.filter(in_both()).map_values(untag())
}

} // verus!
