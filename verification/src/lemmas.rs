//! Facts about the model that the proofs of the algorithm rest on.

use crate::model::{is_split_point, is_subsequence, lcs_len, split_point, split_score};
use vstd::prelude::*;

verus! {

/// A longest common subsequence is no longer than either sequence.
pub proof fn lemma_lcs_len_bounded<T>(a: Seq<T>, b: Seq<T>)
    ensures
        lcs_len(a, b) <= a.len(),
        lcs_len(a, b) <= b.len(),
    decreases a.len() + b.len(),
{
    if a.len() == 0 || b.len() == 0 {
    } else {
        lemma_lcs_len_bounded(a.drop_last(), b.drop_last());
        lemma_lcs_len_bounded(a.drop_last(), b);
        lemma_lcs_len_bounded(a, b.drop_last());
    }
}

/// How the score of one more element of each sequence follows from the
/// three scores around it.
pub proof fn lemma_lcs_len_push<T>(a: Seq<T>, x: T, b: Seq<T>, y: T)
    ensures
        lcs_len(a.push(x), b.push(y)) == if x == y {
            lcs_len(a, b) + 1
        } else if lcs_len(a, b.push(y)) >= lcs_len(a.push(x), b) {
            lcs_len(a, b.push(y))
        } else {
            lcs_len(a.push(x), b)
        },
{
    assert(a.push(x).drop_last() =~= a);
    assert(b.push(y).drop_last() =~= b);
}

/// A subsequence is no longer than the sequence it is taken from.
pub proof fn lemma_subsequence_len<T>(s: Seq<T>, t: Seq<T>)
    requires
        is_subsequence(s, t),
    ensures
        s.len() <= t.len(),
    decreases t.len(),
{
    if s.len() > 0 {
        if s.last() == t.last() && is_subsequence(s.drop_last(), t.drop_last()) {
            lemma_subsequence_len(s.drop_last(), t.drop_last());
        } else {
            lemma_subsequence_len(s, t.drop_last());
        }
    }
}

/// Dropping the last element of both keeps a subsequence a subsequence.
pub proof fn lemma_subsequence_drop_last<T>(s: Seq<T>, t: Seq<T>)
    requires
        is_subsequence(s, t),
        s.len() > 0,
    ensures
        t.len() > 0,
        is_subsequence(s.drop_last(), t.drop_last()),
    decreases t.len(),
{
    if !(s.last() == t.last() && is_subsequence(s.drop_last(), t.drop_last())) {
        lemma_subsequence_drop_last(s, t.drop_last());
    }
}

/// No common subsequence of `a` and `b` is longer than `lcs_len(a, b)`.
pub proof fn lemma_common_subsequence_bounded<T>(c: Seq<T>, a: Seq<T>, b: Seq<T>)
    requires
        is_subsequence(c, a),
        is_subsequence(c, b),
    ensures
        c.len() <= lcs_len(a, b),
    decreases a.len() + b.len(),
{
    if c.len() > 0 {
        lemma_subsequence_drop_last(c, a);
        lemma_subsequence_drop_last(c, b);
        if a.last() == b.last() {
            lemma_common_subsequence_bounded(c.drop_last(), a.drop_last(), b.drop_last());
        } else if is_subsequence(c, a.drop_last()) {
            lemma_common_subsequence_bounded(c, a.drop_last(), b);
        } else {
            lemma_common_subsequence_bounded(c, a, b.drop_last());
        }
    }
}

/// One common subsequence of `a` and `b` of greatest length.
pub open spec fn lcs_witness<T>(a: Seq<T>, b: Seq<T>) -> Seq<T>
    decreases a.len() + b.len(),
{
    if a.len() == 0 || b.len() == 0 {
        Seq::empty()
    } else if a.last() == b.last() {
        lcs_witness(a.drop_last(), b.drop_last()).push(a.last())
    } else if lcs_len(a.drop_last(), b) >= lcs_len(a, b.drop_last()) {
        lcs_witness(a.drop_last(), b)
    } else {
        lcs_witness(a, b.drop_last())
    }
}

/// `lcs_witness(a, b)` is a common subsequence of `a` and `b`, and its
/// length is `lcs_len(a, b)`.
pub proof fn lemma_lcs_witness<T>(a: Seq<T>, b: Seq<T>)
    ensures
        is_subsequence(lcs_witness(a, b), a),
        is_subsequence(lcs_witness(a, b), b),
        lcs_witness(a, b).len() == lcs_len(a, b),
    decreases a.len() + b.len(),
{
    if a.len() == 0 || b.len() == 0 {
    } else if a.last() == b.last() {
        lemma_lcs_witness(a.drop_last(), b.drop_last());
        let shorter = lcs_witness(a.drop_last(), b.drop_last());
        assert(shorter.push(a.last()).drop_last() =~= shorter);
    } else if lcs_len(a.drop_last(), b) >= lcs_len(a, b.drop_last()) {
        lemma_lcs_witness(a.drop_last(), b);
    } else {
        lemma_lcs_witness(a, b.drop_last());
    }
}

/// A subsequence of `t` is a subsequence of `t` with more appended.
pub proof fn lemma_subsequence_extend<T>(s: Seq<T>, t: Seq<T>, more: Seq<T>)
    requires
        is_subsequence(s, t),
    ensures
        is_subsequence(s, t + more),
    decreases more.len(),
{
    if more.len() == 0 {
        assert(t + more =~= t);
    } else {
        lemma_subsequence_extend(s, t, more.drop_last());
        assert((t + more).drop_last() =~= t + more.drop_last());
    }
}

/// Subsequences of two sequences, joined, are a subsequence of the two
/// sequences joined.
pub proof fn lemma_subsequence_concat<T>(s1: Seq<T>, t1: Seq<T>, s2: Seq<T>, t2: Seq<T>)
    requires
        is_subsequence(s1, t1),
        is_subsequence(s2, t2),
    ensures
        is_subsequence(s1 + s2, t1 + t2),
    decreases t2.len(),
{
    if s2.len() == 0 {
        assert(s1 + s2 =~= s1);
        lemma_subsequence_extend(s1, t1, t2);
    } else {
        assert((t1 + t2).drop_last() =~= t1 + t2.drop_last());
        if s2.last() == t2.last() && is_subsequence(s2.drop_last(), t2.drop_last()) {
            lemma_subsequence_concat(s1, t1, s2.drop_last(), t2.drop_last());
            assert((s1 + s2).drop_last() =~= s1 + s2.drop_last());
        } else {
            lemma_subsequence_concat(s1, t1, s2, t2.drop_last());
        }
    }
}

/// A subsequence of `t1 + t2` falls into a subsequence of `t1` followed by
/// one of `t2`.
pub proof fn lemma_subsequence_split_target<T>(s: Seq<T>, t1: Seq<T>, t2: Seq<T>) -> (i: int)
    requires
        is_subsequence(s, t1 + t2),
    ensures
        0 <= i <= s.len(),
        is_subsequence(s.take(i), t1),
        is_subsequence(s.skip(i), t2),
    decreases t2.len(),
{
    let t = t1 + t2;
    if t2.len() == 0 {
        assert(t =~= t1);
        assert(s.take(s.len() as int) =~= s);
        s.len() as int
    } else if s.len() == 0 {
        0
    } else {
        assert(t.drop_last() =~= t1 + t2.drop_last());
        if s.last() == t.last() && is_subsequence(s.drop_last(), t.drop_last()) {
            let i = lemma_subsequence_split_target(s.drop_last(), t1, t2.drop_last());
            assert(s.take(i) =~= s.drop_last().take(i));
            assert(s.skip(i).drop_last() =~= s.drop_last().skip(i));
            i
        } else {
            lemma_subsequence_split_target(s, t1, t2.drop_last())
        }
    }
}

/// Where `s1 + s2` is a subsequence of `t`, `t` can be cut so that `s1` is a
/// subsequence of the part before the cut and `s2` of the part after it.
pub proof fn lemma_subsequence_split_source<T>(s1: Seq<T>, s2: Seq<T>, t: Seq<T>) -> (j: int)
    requires
        is_subsequence(s1 + s2, t),
    ensures
        0 <= j <= t.len(),
        is_subsequence(s1, t.take(j)),
        is_subsequence(s2, t.skip(j)),
    decreases t.len(),
{
    let s = s1 + s2;
    if s2.len() == 0 {
        assert(s =~= s1);
        assert(t.take(t.len() as int) =~= t);
        t.len() as int
    } else {
        assert(s.drop_last() =~= s1 + s2.drop_last());
        if s.last() == t.last() && is_subsequence(s.drop_last(), t.drop_last()) {
            let j = lemma_subsequence_split_source(s1, s2.drop_last(), t.drop_last());
            assert(t.take(j) =~= t.drop_last().take(j));
            assert(t.skip(j).drop_last() =~= t.drop_last().skip(j));
            j
        } else {
            let j = lemma_subsequence_split_source(s1, s2, t.drop_last());
            assert(t.take(j) =~= t.drop_last().take(j));
            assert(t.skip(j).drop_last() =~= t.drop_last().skip(j));
            j
        }
    }
}

/// Reading both backwards keeps a subsequence a subsequence.
pub proof fn lemma_subsequence_reverse<T>(s: Seq<T>, t: Seq<T>)
    requires
        is_subsequence(s, t),
    ensures
        is_subsequence(s.reverse(), t.reverse()),
    decreases t.len(),
{
    if s.len() > 0 {
        let head = seq![t.last()];
        assert(t.reverse() =~= head + t.drop_last().reverse());
        if s.last() == t.last() && is_subsequence(s.drop_last(), t.drop_last()) {
            lemma_subsequence_reverse(s.drop_last(), t.drop_last());
            assert(is_subsequence(head.drop_last(), head.drop_last()));
            assert(is_subsequence(head, head));
            lemma_subsequence_concat(head, head, s.drop_last().reverse(), t.drop_last().reverse());
            assert(s.reverse() =~= head + s.drop_last().reverse());
        } else {
            lemma_subsequence_reverse(s, t.drop_last());
            lemma_subsequence_concat(Seq::empty(), head, s.reverse(), t.drop_last().reverse());
            assert(Seq::<T>::empty() + s.reverse() =~= s.reverse());
        }
    }
}

/// Reading both sequences backwards leaves the length of their longest
/// common subsequence as it is.
pub proof fn lemma_lcs_len_reverse<T>(a: Seq<T>, b: Seq<T>)
    ensures
        lcs_len(a.reverse(), b.reverse()) == lcs_len(a, b),
{
    let forward = lcs_witness(a, b);
    lemma_lcs_witness(a, b);
    lemma_subsequence_reverse(forward, a);
    lemma_subsequence_reverse(forward, b);
    lemma_common_subsequence_bounded(forward.reverse(), a.reverse(), b.reverse());
    let backward = lcs_witness(a.reverse(), b.reverse());
    lemma_lcs_witness(a.reverse(), b.reverse());
    lemma_subsequence_reverse(backward, a.reverse());
    lemma_subsequence_reverse(backward, b.reverse());
    assert(a.reverse().reverse() =~= a);
    assert(b.reverse().reverse() =~= b);
    lemma_common_subsequence_bounded(backward.reverse(), a, b);
}

/// Swapping the two sequences leaves the length of their longest common
/// subsequence as it is.
pub proof fn lemma_lcs_len_symmetric<T>(a: Seq<T>, b: Seq<T>)
    ensures
        lcs_len(a, b) == lcs_len(b, a),
    decreases a.len() + b.len(),
{
    if a.len() == 0 || b.len() == 0 {
    } else {
        lemma_lcs_len_symmetric(a.drop_last(), b.drop_last());
        lemma_lcs_len_symmetric(a.drop_last(), b);
        lemma_lcs_len_symmetric(a, b.drop_last());
    }
}

/// No cut of `b` scores more than a longest common subsequence of the whole.
pub proof fn lemma_split_score_bounded<T>(left: Seq<T>, right: Seq<T>, b: Seq<T>, j: int)
    requires
        0 <= j <= b.len(),
    ensures
        split_score(left, right, b, j) <= lcs_len(left + right, b),
{
    let before = lcs_witness(left, b.take(j));
    let after = lcs_witness(right, b.skip(j));
    lemma_lcs_witness(left, b.take(j));
    lemma_lcs_witness(right, b.skip(j));
    lemma_subsequence_concat(before, left, after, right);
    lemma_subsequence_concat(before, b.take(j), after, b.skip(j));
    assert(b.take(j) + b.skip(j) =~= b);
    lemma_common_subsequence_bounded(before + after, left + right, b);
}

/// Some cut of `b` scores as much as a longest common subsequence of the
/// whole.
pub proof fn lemma_split_score_reached<T>(left: Seq<T>, right: Seq<T>, b: Seq<T>) -> (j: int)
    ensures
        0 <= j <= b.len(),
        split_score(left, right, b, j) >= lcs_len(left + right, b),
{
    let whole = lcs_witness(left + right, b);
    lemma_lcs_witness(left + right, b);
    let i = lemma_subsequence_split_target(whole, left, right);
    assert(whole.take(i) + whole.skip(i) =~= whole);
    let j = lemma_subsequence_split_source(whole.take(i), whole.skip(i), b);
    lemma_common_subsequence_bounded(whole.take(i), left, b.take(j));
    lemma_common_subsequence_bounded(whole.skip(i), right, b.skip(j));
    j
}

/// The score at the split point is the length of a longest common
/// subsequence of the whole.
pub proof fn lemma_split_point_score<T>(left: Seq<T>, right: Seq<T>, b: Seq<T>, k: int)
    requires
        is_split_point(left, right, b, k),
    ensures
        split_score(left, right, b, k) == lcs_len(left + right, b),
{
    lemma_split_score_bounded(left, right, b, k);
    let j = lemma_split_score_reached(left, right, b);
}

/// A leftmost best cut among the cuts up to `n`.
proof fn lemma_best_cut_up_to<T>(left: Seq<T>, right: Seq<T>, b: Seq<T>, n: int) -> (k: int)
    requires
        0 <= n <= b.len(),
    ensures
        0 <= k <= n,
        forall|j: int| 0 <= j < k ==> split_score(left, right, b, j) < split_score(left, right, b, k),
        forall|j: int|
            k <= j <= n ==> split_score(left, right, b, j) <= split_score(left, right, b, k),
    decreases n,
{
    if n == 0 {
        0
    } else {
        let k = lemma_best_cut_up_to(left, right, b, n - 1);
        if split_score(left, right, b, n) > split_score(left, right, b, k) {
            n
        } else {
            k
        }
    }
}

/// Every pair of halves has a split point in every `b`, and `split_point`
/// names it.
pub proof fn lemma_split_point_exists<T>(left: Seq<T>, right: Seq<T>, b: Seq<T>)
    ensures
        is_split_point(left, right, b, split_point(left, right, b)),
{
    let k = lemma_best_cut_up_to(left, right, b, b.len() as int);
    assert(is_split_point(left, right, b, k));
}

/// There is one split point only.
pub proof fn lemma_split_point_unique<T>(left: Seq<T>, right: Seq<T>, b: Seq<T>, k: int)
    requires
        is_split_point(left, right, b, k),
    ensures
        k == split_point(left, right, b),
{
    lemma_split_point_exists(left, right, b);
    let other = split_point(left, right, b);
    if k < other {
        assert(split_score(left, right, b, k) < split_score(left, right, b, other));
    } else if other < k {
        assert(split_score(left, right, b, other) < split_score(left, right, b, k));
    }
}

} // verus!
