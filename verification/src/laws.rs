//! What holds of every alignment and every longest common subsequence that
//! the algorithm returns.

use crate::align::{lemma_common_side_is_subsequence, lemma_lcs_of_len, lemma_sides_diff_of};
use crate::lemmas::{
    lcs_witness, lemma_common_subsequence_bounded, lemma_lcs_len_bounded,
    lemma_lcs_len_symmetric, lemma_lcs_witness, lemma_subsequence_extend,
    lemma_subsequence_len,
};
use crate::model::{
    all_first, all_second, common_side, diff_of, first_side, is_subsequence, lcs_len, lcs_of,
    score_line, second_side,
};
use vstd::prelude::*;

verus! {

/// The longest common subsequence of `a` and `b` is as long as that of `b`
/// and `a`, though the two need not hold the same elements.
pub proof fn lcs_length_is_symmetric<T>(a: Seq<T>, b: Seq<T>)
    ensures
        lcs_of(a, b).len() == lcs_of(b, a).len(),
{
    lemma_lcs_of_len(a, b);
    lemma_lcs_of_len(b, a);
    lemma_lcs_len_symmetric(a, b);
}

/// The elements that the alignment of `a` and `b` tags as shared are, in
/// order, the longest common subsequence of `a` and `b`.
pub proof fn diff_shares_the_lcs<T>(a: Seq<T>, b: Seq<T>)
    ensures
        common_side(diff_of(a, b)) == lcs_of(a, b),
{
    lemma_sides_diff_of(a, b);
}

/// The alignment of `a` and `b` without its second-only elements is `a`,
/// and without its first-only elements it is `b`.
pub proof fn diff_reconstructs_both<T>(a: Seq<T>, b: Seq<T>)
    ensures
        first_side(diff_of(a, b)) == a,
        second_side(diff_of(a, b)) == b,
{
    lemma_sides_diff_of(a, b);
}

/// The longest common subsequence of `a` and `b` is a subsequence of `a`
/// and of `b`.
pub proof fn lcs_is_common_subsequence<T>(a: Seq<T>, b: Seq<T>)
    ensures
        is_subsequence(lcs_of(a, b), a),
        is_subsequence(lcs_of(a, b), b),
{
    lemma_sides_diff_of(a, b);
    lemma_common_side_is_subsequence(diff_of(a, b));
}

/// No common subsequence of `a` and `b` is longer than the one that the
/// algorithm picks.
pub proof fn lcs_is_longest<T>(a: Seq<T>, b: Seq<T>, c: Seq<T>)
    requires
        is_subsequence(c, a),
        is_subsequence(c, b),
    ensures
        c.len() <= lcs_of(a, b).len(),
{
    lemma_lcs_of_len(a, b);
    lemma_common_subsequence_bounded(c, a, b);
}

/// A subsequence as long as the sequence it is taken from is that sequence.
proof fn lemma_full_subsequence<T>(s: Seq<T>, t: Seq<T>)
    requires
        is_subsequence(s, t),
        s.len() == t.len(),
    ensures
        s == t,
    decreases t.len(),
{
    if t.len() == 0 {
        assert(s =~= t);
    } else {
        if is_subsequence(s, t.drop_last()) {
            lemma_subsequence_len(s, t.drop_last());
        }
        lemma_full_subsequence(s.drop_last(), t.drop_last());
        assert(s =~= s.drop_last().push(s.last()));
        assert(t =~= t.drop_last().push(t.last()));
    }
}

/// A sequence shares all its elements with itself.
proof fn lemma_lcs_len_of_self<T>(a: Seq<T>)
    ensures
        lcs_len(a, a) == a.len(),
    decreases a.len(),
{
    if a.len() > 0 {
        lemma_lcs_len_of_self(a.drop_last());
    }
}

/// The longest common subsequence of a sequence and itself is the sequence.
pub proof fn lcs_of_self<T>(a: Seq<T>)
    ensures
        lcs_of(a, a) == a,
{
    lemma_lcs_of_len(a, a);
    lemma_lcs_len_of_self(a);
    lcs_is_common_subsequence(a, a);
    lemma_full_subsequence(lcs_of(a, a), a);
}

/// With an empty second sequence nothing is shared, and the alignment tags
/// every element of the first sequence as first-only.
pub proof fn empty_second_sequence<T>(a: Seq<T>)
    ensures
        lcs_of(a, Seq::<T>::empty()) == Seq::<T>::empty(),
        diff_of(a, Seq::<T>::empty()) == all_first(a),
{
    let none = Seq::<T>::empty();
    assert(lcs_of(a, none) =~= none);
    if a.len() == 0 {
        assert(all_second(none) =~= all_first(a));
    }
}

/// With an empty first sequence nothing is shared, and the alignment tags
/// every element of the second sequence as second-only.
pub proof fn empty_first_sequence<T>(b: Seq<T>)
    ensures
        lcs_of(Seq::<T>::empty(), b) == Seq::<T>::empty(),
        diff_of(Seq::<T>::empty(), b) == all_second(b),
{
}

/// Against an empty first sequence every entry of the score line is zero;
/// against an empty second sequence the score line is its one entry for the
/// empty prefix, which is zero.
pub proof fn score_line_of_empty<T>(s: Seq<T>)
    ensures
        score_line(Seq::<T>::empty(), s) == Seq::new(s.len() + 1, |j: int| 0nat),
        score_line(s, Seq::<T>::empty()) == seq![0nat],
{
    let none = Seq::<T>::empty();
    assert(score_line(none, s) =~= Seq::new(s.len() + 1, |j: int| 0nat));
    assert(score_line(s, none) =~= seq![0nat]);
}

/// Every entry of a score line is the length of a longest common
/// subsequence, so it exceeds neither the length of the first sequence nor
/// its own index, and the entries never fall from left to right.
pub proof fn score_line_is_monotone<T>(a: Seq<T>, b: Seq<T>, i: int, j: int)
    requires
        0 <= i <= j <= b.len(),
    ensures
        score_line(a, b)[i] <= score_line(a, b)[j],
        score_line(a, b)[j] <= j,
        score_line(a, b)[j] <= a.len(),
{
    lemma_lcs_len_bounded(a, b.take(j));
    let longest = lcs_witness(a, b.take(i));
    lemma_lcs_witness(a, b.take(i));
    assert(b.take(j) =~= b.take(i) + b.take(j).skip(i));
    lemma_subsequence_extend(longest, b.take(i), b.take(j).skip(i));
    lemma_common_subsequence_bounded(longest, a, b.take(j));
}

/// Turning a sequence around twice gives the sequence back.
pub proof fn reverse_twice<T>(s: Seq<T>)
    ensures
        s.reverse().reverse() == s,
{
    assert(s.reverse().reverse() =~= s);
}

} // verus!
