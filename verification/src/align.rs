//! Facts about alignments: what their sides are, and what the alignment
//! that the algorithm builds shows of its two inputs.

use crate::lemmas::{lemma_split_point_exists, lemma_split_point_score};
use crate::model::{
    all_first, all_second, common_side, diff_of, first_side, in_both, in_first, in_second,
    is_subsequence, lcs_len, lcs_of, second_side, single_diff, split_point, tag_single,
    tagged_single, untag,
};
use crate::seq::DiffItem;
use vstd::prelude::*;

verus! {

/// What one more tagged element adds to an untagged selection.
pub proof fn lemma_selection_push<T>(
    d: Seq<DiffItem<T>>,
    item: DiffItem<T>,
    chosen: spec_fn(DiffItem<T>) -> bool,
)
    ensures
        d.push(item).filter(chosen).map_values(untag()) == if chosen(item) {
            d.filter(chosen).map_values(untag()).push(item.value())
        } else {
            d.filter(chosen).map_values(untag())
        },
{
    d.lemma_filter_push(item, chosen);
    if chosen(item) {
        assert(d.filter(chosen).push(item).map_values(untag()) =~= d.filter(chosen).map_values(
            untag(),
        ).push(item.value()));
    }
}

/// An untagged selection of two alignments joined is the two selections
/// joined.
pub proof fn lemma_selection_concat<T>(
    d1: Seq<DiffItem<T>>,
    d2: Seq<DiffItem<T>>,
    chosen: spec_fn(DiffItem<T>) -> bool,
)
    ensures
        (d1 + d2).filter(chosen).map_values(untag()) == d1.filter(chosen).map_values(untag())
            + d2.filter(chosen).map_values(untag()),
{
    Seq::filter_distributes_over_add(d1, d2, chosen);
    assert((d1.filter(chosen) + d2.filter(chosen)).map_values(untag()) =~= d1.filter(
        chosen,
    ).map_values(untag()) + d2.filter(chosen).map_values(untag()));
}

/// The sides of an alignment that ends in `item`.
pub proof fn lemma_sides_push<T>(d: Seq<DiffItem<T>>, item: DiffItem<T>)
    ensures
        first_side(d.push(item)) == if item is Second {
            first_side(d)
        } else {
            first_side(d).push(item.value())
        },
        second_side(d.push(item)) == if item is First {
            second_side(d)
        } else {
            second_side(d).push(item.value())
        },
        common_side(d.push(item)) == if item is Both {
            common_side(d).push(item.value())
        } else {
            common_side(d)
        },
{
    lemma_selection_push(d, item, in_first());
    lemma_selection_push(d, item, in_second());
    lemma_selection_push(d, item, in_both());
}

/// The sides of two alignments joined are their sides joined.
pub proof fn lemma_sides_concat<T>(d1: Seq<DiffItem<T>>, d2: Seq<DiffItem<T>>)
    ensures
        first_side(d1 + d2) == first_side(d1) + first_side(d2),
        second_side(d1 + d2) == second_side(d1) + second_side(d2),
        common_side(d1 + d2) == common_side(d1) + common_side(d2),
{
    lemma_selection_concat(d1, d2, in_first());
    lemma_selection_concat(d1, d2, in_second());
    lemma_selection_concat(d1, d2, in_both());
}

/// The sides of the empty alignment are empty.
pub proof fn lemma_sides_empty<T>()
    ensures
        first_side(Seq::<DiffItem<T>>::empty()) == Seq::<T>::empty(),
        second_side(Seq::<DiffItem<T>>::empty()) == Seq::<T>::empty(),
        common_side(Seq::<DiffItem<T>>::empty()) == Seq::<T>::empty(),
{
    reveal(Seq::filter);
    let d = Seq::<DiffItem<T>>::empty();
    assert(first_side(d) =~= Seq::<T>::empty());
    assert(second_side(d) =~= Seq::<T>::empty());
    assert(common_side(d) =~= Seq::<T>::empty());
}

/// An alignment of first-only elements shows them in the first sequence and
/// nothing else.
pub proof fn lemma_sides_all_first<T>(a: Seq<T>)
    ensures
        first_side(all_first(a)) == a,
        second_side(all_first(a)) == Seq::<T>::empty(),
        common_side(all_first(a)) == Seq::<T>::empty(),
    decreases a.len(),
{
    if a.len() == 0 {
        lemma_sides_empty::<T>();
        assert(all_first(a) =~= Seq::<DiffItem<T>>::empty());
        assert(a =~= Seq::<T>::empty());
    } else {
        lemma_sides_all_first(a.drop_last());
        assert(all_first(a) =~= all_first(a.drop_last()).push(DiffItem::First(a.last())));
        lemma_sides_push(all_first(a.drop_last()), DiffItem::First(a.last()));
        assert(a.drop_last().push(a.last()) =~= a);
    }
}

/// An alignment of second-only elements shows them in the second sequence
/// and nothing else.
pub proof fn lemma_sides_all_second<T>(b: Seq<T>)
    ensures
        first_side(all_second(b)) == Seq::<T>::empty(),
        second_side(all_second(b)) == b,
        common_side(all_second(b)) == Seq::<T>::empty(),
    decreases b.len(),
{
    if b.len() == 0 {
        lemma_sides_empty::<T>();
        assert(all_second(b) =~= Seq::<DiffItem<T>>::empty());
        assert(b =~= Seq::<T>::empty());
    } else {
        lemma_sides_all_second(b.drop_last());
        assert(all_second(b) =~= all_second(b.drop_last()).push(DiffItem::Second(b.last())));
        lemma_sides_push(all_second(b.drop_last()), DiffItem::Second(b.last()));
        assert(b.drop_last().push(b.last()) =~= b);
    }
}

/// A sequence holds `x` where its last element is `x` or the elements
/// before it hold `x`.
pub proof fn lemma_contains_drop_last<T>(b: Seq<T>, x: T)
    requires
        b.len() > 0,
    ensures
        b.contains(x) <==> (b.drop_last().contains(x) || b.last() == x),
{
    if b.contains(x) {
        let i = choose|i: int| 0 <= i < b.len() && b[i] == x;
        if i < b.len() - 1 {
            assert(b.drop_last()[i] == x);
        }
    }
    if b.drop_last().contains(x) {
        let i = choose|i: int| 0 <= i < b.drop_last().len() && b.drop_last()[i] == x;
        assert(b[i] == x);
    }
    if b.last() == x {
        assert(b[b.len() - 1] == x);
    }
}

/// The tagged elements of `b` grow with `b` one element at a time.
pub proof fn lemma_tagged_single_drop_last<T>(x: T, b: Seq<T>)
    requires
        b.len() > 0,
    ensures
        tagged_single(x, b) == tagged_single(x, b.drop_last()).push(
            tag_single(x, b, b.len() - 1),
        ),
{
    let shorter = b.drop_last();
    assert forall|j: int| 0 <= j < shorter.len() implies tag_single(x, shorter, j) == tag_single(
        x,
        b,
        j,
    ) by {
        assert(shorter.take(j) =~= b.take(j));
    }
    assert(tagged_single(x, b) =~= tagged_single(x, shorter).push(tag_single(x, b, b.len() - 1)));
}

/// The tagged elements of `b` show all of `b` in the second sequence, and
/// `x` in the first where `b` holds it.
pub proof fn lemma_sides_tagged_single<T>(x: T, b: Seq<T>)
    ensures
        second_side(tagged_single(x, b)) == b,
        first_side(tagged_single(x, b)) == common_side(tagged_single(x, b)),
        common_side(tagged_single(x, b)) == if b.contains(x) {
            seq![x]
        } else {
            Seq::<T>::empty()
        },
    decreases b.len(),
{
    if b.len() == 0 {
        lemma_sides_empty::<T>();
        assert(tagged_single(x, b) =~= Seq::<DiffItem<T>>::empty());
        assert(b =~= Seq::<T>::empty());
    } else {
        let shorter = b.drop_last();
        lemma_sides_tagged_single(x, shorter);
        lemma_tagged_single_drop_last(x, b);
        lemma_sides_push(tagged_single(x, shorter), tag_single(x, b, b.len() - 1));
        lemma_contains_drop_last(b, x);
        assert(b.take(b.len() - 1) =~= shorter);
        assert(shorter.push(b.last()) =~= b);
        assert(Seq::<T>::empty().push(x) =~= seq![x]);
    }
}

/// The alignment of one element with `b` shows that element in the first
/// sequence, all of `b` in the second, and the element as shared where `b`
/// holds it.
pub proof fn lemma_sides_single_diff<T>(x: T, b: Seq<T>)
    ensures
        first_side(single_diff(x, b)) == seq![x],
        second_side(single_diff(x, b)) == b,
        common_side(single_diff(x, b)) == if b.contains(x) {
            seq![x]
        } else {
            Seq::<T>::empty()
        },
{
    lemma_sides_tagged_single(x, b);
    if !b.contains(x) {
        lemma_sides_push(tagged_single(x, b), DiffItem::First(x));
        assert(Seq::<T>::empty().push(x) =~= seq![x]);
    }
}

/// The alignment of `a` and `b` shows `a` as its first sequence and `b` as
/// its second, and the longest common subsequence that it picks as shared.
pub proof fn lemma_sides_diff_of<T>(a: Seq<T>, b: Seq<T>)
    ensures
        first_side(diff_of(a, b)) == a,
        second_side(diff_of(a, b)) == b,
        common_side(diff_of(a, b)) == lcs_of(a, b),
    decreases a.len(),
{
    if a.len() == 0 {
        lemma_sides_all_second(b);
        assert(a =~= Seq::<T>::empty());
    } else if b.len() == 0 {
        lemma_sides_all_first(a);
        assert(b =~= Seq::<T>::empty());
    } else if a.len() == 1 {
        lemma_sides_single_diff(a[0], b);
        assert(a =~= seq![a[0]]);
    } else {
        let mid = (a.len() / 2) as int;
        let k = split_point(a.take(mid), a.skip(mid), b);
        lemma_split_point_exists(a.take(mid), a.skip(mid), b);
        lemma_sides_diff_of(a.take(mid), b.take(k));
        lemma_sides_diff_of(a.skip(mid), b.skip(k));
        lemma_sides_concat(diff_of(a.take(mid), b.take(k)), diff_of(a.skip(mid), b.skip(k)));
        assert(a.take(mid) + a.skip(mid) =~= a);
        assert(b.take(k) + b.skip(k) =~= b);
    }
}

/// A one-element sequence shares one element with `b` where `b` holds it,
/// and none where it does not.
pub proof fn lemma_lcs_len_single<T>(x: T, b: Seq<T>)
    ensures
        lcs_len(seq![x], b) == if b.contains(x) {
            1nat
        } else {
            0nat
        },
    decreases b.len(),
{
    let a = seq![x];
    if b.len() == 0 {
    } else {
        lemma_contains_drop_last(b, x);
        lemma_lcs_len_single(x, b.drop_last());
        assert(a.drop_last() =~= Seq::<T>::empty());
        assert(lcs_len(a.drop_last(), b.drop_last()) == 0);
        assert(lcs_len(a.drop_last(), b) == 0);
    }
}

/// The longest common subsequence that the alignment picks is as long as
/// any common subsequence can be.
pub proof fn lemma_lcs_of_len<T>(a: Seq<T>, b: Seq<T>)
    ensures
        lcs_of(a, b).len() == lcs_len(a, b),
    decreases a.len(),
{
    if a.len() == 0 || b.len() == 0 {
    } else if a.len() == 1 {
        lemma_lcs_len_single(a[0], b);
        assert(a =~= seq![a[0]]);
    } else {
        let mid = (a.len() / 2) as int;
        let left = a.take(mid);
        let right = a.skip(mid);
        let k = split_point(left, right, b);
        lemma_split_point_exists(left, right, b);
        lemma_lcs_of_len(left, b.take(k));
        lemma_lcs_of_len(right, b.skip(k));
        lemma_split_point_score(left, right, b, k);
        assert(left + right =~= a);
    }
}

/// What an alignment shows as shared is a subsequence of each of its sides.
pub proof fn lemma_common_side_is_subsequence<T>(d: Seq<DiffItem<T>>)
    ensures
        is_subsequence(common_side(d), first_side(d)),
        is_subsequence(common_side(d), second_side(d)),
    decreases d.len(),
{
    if d.len() == 0 {
        lemma_sides_empty::<T>();
        assert(d =~= Seq::<DiffItem<T>>::empty());
    } else {
        let shorter = d.drop_last();
        let item = d.last();
        lemma_common_side_is_subsequence(shorter);
        lemma_sides_push(shorter, item);
        assert(shorter.push(item) =~= d);
        let c = common_side(shorter);
        let f = first_side(shorter);
        let s = second_side(shorter);
        let x = item.value();
        assert(c.push(x).drop_last() =~= c);
        assert(f.push(x).drop_last() =~= f);
        assert(s.push(x).drop_last() =~= s);
    }
}

/// A selection that leaves no element of `d` out is all of `d`.
pub proof fn lemma_filter_keeps_all<T>(d: Seq<T>, chosen: spec_fn(T) -> bool)
    requires
        forall|i: int| 0 <= i < d.len() ==> chosen(#[trigger] d[i]),
    ensures
        d.filter(chosen) == d,
    decreases d.len(),
{
    reveal(Seq::filter);
    if d.len() > 0 {
        lemma_filter_keeps_all(d.drop_last(), chosen);
        assert(d.drop_last().push(d.last()) =~= d);
    }
}

} // verus!
