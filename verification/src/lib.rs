//! Longest common subsequence and diff of two sequences in linear space,
//! after Hirschberg's divide-and-conquer scheme.

pub mod align;
pub mod chars;
pub mod laws;
pub mod lemmas;
pub mod model;
pub mod seq;
pub mod slice;

pub use crate::chars::{AsCharsIter, CharsIter};
pub use crate::seq::{
    Diff, DiffItem, Difference, Insert, Lcs, NwScoreLine, SeqIter, SequenceIterator,
};
pub use crate::slice::{CopiedIter, SliceIter};

use crate::align::{
    lemma_contains_drop_last, lemma_filter_keeps_all, lemma_sides_diff_of,
    lemma_tagged_single_drop_last,
};
use crate::lemmas::{
    lemma_lcs_len_bounded, lemma_lcs_len_push, lemma_lcs_len_reverse, lemma_split_point_unique,
};
use crate::model::{
    all_first, all_second, diff_of, in_both, is_split_point, kept_by, lcs_len, lcs_of,
    split_score, tag_single, tagged_single, untag,
};
use vstd::laws_eq::obeys_concrete_eq;
use vstd::prelude::*;

verus! {

/// Whether two elements are equal.
fn same<T: PartialEq>(x: &T, y: &T) -> (equal: bool)
    requires
        obeys_concrete_eq::<T>(),
    ensures
        equal == (*x == *y),
{
    proof {
        reveal(obeys_concrete_eq);
    }
    *x == *y
}

/// The last line of the Needleman-Wunsch score matrix of `a` against `b`,
/// computed line by line in space proportional to `b`.
///
/// Entry `j` of the result is the length of a longest common subsequence of
/// all of `a` and the first `j` elements of `b`.
pub fn score_last_line<SeqA, SeqB, Line>(a: SeqA, b: SeqB) -> (line: Line) where
    SeqA: SequenceIterator,
    SeqB: SequenceIterator<Item = SeqA::Item>,
    SeqA::Item: PartialEq,
    Line: NwScoreLine,

    requires
        obeys_concrete_eq::<SeqA::Item>(),
        b@.len() < usize::MAX,
    ensures
        line.scores().len() == b@.len() + 1,
        forall|j: int| 0 <= j <= b@.len() ==> line.scores()[j] == lcs_len(a@, b@.take(j)),
{
    let mut rows = a;
    let width = b.len();
    let mut penult = Line::zeroed(width + 1);
    let ghost mut done: Seq<SeqA::Item> = Seq::empty();
    loop
        invariant
            obeys_concrete_eq::<SeqA::Item>(),
            width == b@.len(),
            width < usize::MAX,
            done + rows@ == a@,
            penult.scores().len() == width + 1,
            forall|j: int| 0 <= j <= width ==> penult.scores()[j] == lcs_len(done, b@.take(j)),
        ensures
            penult.scores().len() == width + 1,
            forall|j: int| 0 <= j <= width ==> penult.scores()[j] == lcs_len(a@, b@.take(j)),
        decreases rows@.len(),
    {
        let ghost before = rows@;
        let row = rows.next();
        match row {
            None => {
                assert(done =~= a@);
                break ;
            },
            Some(x) => {
                let ghost grown = done.push(x);
                let mut prev_penult: usize = 0;
                let mut prev_last: usize = 0;
                let mut columns = b.clone();
                let mut j: usize = 0;
                loop
                    invariant
                        obeys_concrete_eq::<SeqA::Item>(),
                        width == b@.len(),
                        width < usize::MAX,
                        j <= width,
                        columns@ == b@.skip(j as int),
                        grown == done.push(x),
                        penult.scores().len() == width + 1,
                        forall|i: int|
                            0 <= i <= j ==> penult.scores()[i] == lcs_len(grown, b@.take(i)),
                        forall|i: int|
                            j < i <= width ==> penult.scores()[i] == lcs_len(done, b@.take(i)),
                        prev_penult == lcs_len(done, b@.take(j as int)),
                        prev_last == lcs_len(grown, b@.take(j as int)),
                    ensures
                        penult.scores().len() == width + 1,
                        forall|i: int|
                            0 <= i <= width ==> penult.scores()[i] == lcs_len(grown, b@.take(i)),
                    decreases width - j,
                {
                    let column = columns.next();
                    match column {
                        None => {
                            break ;
                        },
                        Some(y) => {
                            let idx = j + 1;
                            proof {
                                assert(b@.take(idx as int) =~= b@.take(j as int).push(y));
                                lemma_lcs_len_push(done, x, b@.take(j as int), y);
                                lemma_lcs_len_bounded(grown, b@.take(idx as int));
                            }
                            let above = penult.get(idx);
                            let last = if same(&x, &y) {
                                prev_penult + 1
                            } else if prev_last >= above {
                                prev_last
                            } else {
                                above
                            };
                            prev_penult = above;
                            prev_last = last;
                            penult.set(idx, last);
                            j = idx;
                            assert(columns@ =~= b@.skip(j as int));
                        },
                    }
                }
                proof {
                    done = grown;
                    assert(done + rows@ =~= a@);
                }
            },
        }
    }
    penult
}

/// Aligns the window `a` with the window `b` and offers the tagged elements
/// to `diff`, left to right.
fn hirschberg_diff_inner<Line, IterA, IterB, SeqC>(
    a: SeqIter<IterA>,
    b: SeqIter<IterB>,
    diff: &mut SeqC,
) where
    IterA: SequenceIterator,
    IterA::Item: PartialEq,
    IterB: SequenceIterator<Item = IterA::Item>,
    SeqC: Difference<IterA::Item>,
    Line: NwScoreLine,

    requires
        obeys_concrete_eq::<IterA::Item>(),
        b@.len() < usize::MAX,
    ensures
        final(diff).kept() == old(diff).kept() + diff_of(a@, b@).filter(
            kept_by::<IterA::Item, SeqC>(),
        ),
    decreases a@.len(),
{
    let ghost start = diff.kept();
    let ghost keeps = kept_by::<IterA::Item, SeqC>();
    let ghost none = Seq::<DiffItem<IterA::Item>>::empty();
    proof {
        reveal(Seq::filter);
        assert(none.filter(keeps) =~= none);
        assert(start + none =~= start);
    }
    let (a_len, b_len) = (a.len(), b.len());

    if a_len > 0 && b_len == 0 {
        let mut rest = a;
        let ghost mut done = Seq::<IterA::Item>::empty();
        proof {
            assert(all_first(done) =~= none);
        }
        loop
            invariant
                done + rest@ == a@,
                keeps == kept_by::<IterA::Item, SeqC>(),
                diff.kept() == start + all_first(done).filter(keeps),
            ensures
                diff.kept() == start + all_first(a@).filter(keeps),
            decreases rest@.len(),
        {
            match rest.next() {
                None => {
                    assert(done =~= a@);
                    break ;
                },
                Some(a_item) => {
                    proof {
                        let item = DiffItem::First(a_item);
                        all_first(done).lemma_filter_push(item, keeps);
                        assert(all_first(done.push(a_item)) =~= all_first(done).push(item));
                        assert((start + all_first(done).filter(keeps)).push(item) =~= start
                            + all_first(done).filter(keeps).push(item));
                        done = done.push(a_item);
                        assert(done + rest@ =~= a@);
                    }
                    diff.push_first(a_item);
                },
            }
        }
    } else if a_len == 0 && b_len > 0 {
        let mut rest = b;
        let ghost mut done = Seq::<IterA::Item>::empty();
        proof {
            assert(all_second(done) =~= none);
        }
        loop
            invariant
                done + rest@ == b@,
                keeps == kept_by::<IterA::Item, SeqC>(),
                diff.kept() == start + all_second(done).filter(keeps),
            ensures
                diff.kept() == start + all_second(b@).filter(keeps),
            decreases rest@.len(),
        {
            match rest.next() {
                None => {
                    assert(done =~= b@);
                    break ;
                },
                Some(b_item) => {
                    proof {
                        let item = DiffItem::Second(b_item);
                        all_second(done).lemma_filter_push(item, keeps);
                        assert(all_second(done.push(b_item)) =~= all_second(done).push(item));
                        assert((start + all_second(done).filter(keeps)).push(item) =~= start
                            + all_second(done).filter(keeps).push(item));
                        done = done.push(b_item);
                        assert(done + rest@ =~= b@);
                    }
                    diff.push_second(b_item);
                },
            }
        }
    } else if a_len > 0 && b_len > 0 {
        if a_len == 1 {
            let mut only = a;
            let a_item = only.next().unwrap();
            let mut found = false;
            let mut rest = b;
            let ghost mut done = Seq::<IterA::Item>::empty();
            proof {
                assert(tagged_single(a_item, done) =~= none);
            }
            loop
                invariant
                    obeys_concrete_eq::<IterA::Item>(),
                    done + rest@ == b@,
                    keeps == kept_by::<IterA::Item, SeqC>(),
                    found == done.contains(a_item),
                    diff.kept() == start + tagged_single(a_item, done).filter(keeps),
                ensures
                    found == b@.contains(a_item),
                    diff.kept() == start + tagged_single(a_item, b@).filter(keeps),
                decreases rest@.len(),
            {
                match rest.next() {
                    None => {
                        assert(done =~= b@);
                        break ;
                    },
                    Some(b_item) => {
                        let ghost grown = done.push(b_item);
                        let ghost item = tag_single(a_item, grown, done.len() as int);
                        proof {
                            assert(grown.drop_last() =~= done);
                            assert(grown.take(done.len() as int) =~= done);
                            lemma_tagged_single_drop_last(a_item, grown);
                            lemma_contains_drop_last(grown, a_item);
                            tagged_single(a_item, done).lemma_filter_push(item, keeps);
                            assert((start + tagged_single(a_item, done).filter(keeps)).push(item)
                                =~= start + tagged_single(a_item, done).filter(keeps).push(item));
                        }
                        if same(&b_item, &a_item) && !found {
                            diff.push_both(b_item);
                            found = true;
                        } else {
                            diff.push_second(b_item);
                        }
                        proof {
                            done = grown;
                            assert(done + rest@ =~= b@);
                        }
                    },
                }
            }
            proof {
                let item = DiffItem::First(a_item);
                tagged_single(a_item, b@).lemma_filter_push(item, keeps);
                assert((start + tagged_single(a_item, b@).filter(keeps)).push(item) =~= start
                    + tagged_single(a_item, b@).filter(keeps).push(item));
            }
            if !found {
                diff.push_first(a_item);
            }
        } else {
            let mid = a_len / 2;
            let ghost left = a@.take(mid as int);
            let ghost right = a@.skip(mid as int);
            let score_left: Line = score_last_line(a.clone().take(mid), b.clone());
            let score_right: Line = score_last_line(a.clone().skip(mid).rev(), b.clone().rev());

            let mut k: usize = 0;
            let mut max: usize = 0;
            let cuts = score_left.len();
            let mut j: usize = 0;
            while j < cuts
                invariant
                    j <= cuts,
                    cuts == b_len + 1,
                    b_len == b@.len(),
                    score_left.scores().len() == cuts,
                    score_right.scores().len() == cuts,
                    forall|i: int|
                        0 <= i <= b_len ==> score_left.scores()[i] == lcs_len(left, b@.take(i)),
                    forall|i: int|
                        0 <= i <= b_len ==> score_right.scores()[i] == lcs_len(
                            right.reverse(),
                            b@.reverse().take(i),
                        ),
                    j == 0 ==> k == 0 && max == 0,
                    j > 0 ==> k < j && max == split_score(left, right, b@, k as int),
                    forall|i: int| 0 <= i < k ==> split_score(left, right, b@, i) < max,
                    forall|i: int| k <= i < j ==> split_score(left, right, b@, i) <= max,
                decreases cuts - j,
            {
                proof {
                    let after = b@.skip(j as int);
                    assert(b@.reverse().take(b_len - j) =~= after.reverse());
                    lemma_lcs_len_reverse(right, after);
                    lemma_lcs_len_bounded(left, b@.take(j as int));
                    lemma_lcs_len_bounded(right, after);
                }
                let m = score_left.get(j) + score_right.get(score_right.len() - 1 - j);
                if m > max {
                    max = m;
                    k = j;
                }
                j += 1;
            }
            proof {
                assert(is_split_point(left, right, b@, k as int));
                lemma_split_point_unique(left, right, b@, k as int);
                assert(b@.take(b_len as int) =~= b@);
                assert(b@.skip(b_len as int) =~= Seq::empty());
            }
            let ghost first_half = diff_of(left, b@.take(k as int));
            let ghost second_half = diff_of(right, b@.skip(k as int));
            hirschberg_diff_inner::<Line, _, _, _>(a.clone().take(mid), b.clone().take(k), diff);
            hirschberg_diff_inner::<Line, _, _, _>(a.skip(mid), b.skip(k), diff);
            proof {
                Seq::filter_distributes_over_add(first_half, second_half, keeps);
                assert(start + first_half.filter(keeps) + second_half.filter(keeps) =~= start + (
                first_half.filter(keeps) + second_half.filter(keeps)));
            }
        }
    } else {
        proof {
            assert(all_second(b@) =~= none);
        }
    }
}

/// Aligns the sequence `a` with the sequence `b` and collects the tagged
/// elements that a sink of type `SeqC` keeps, left to right.
///
/// The work is done in time proportional to the product of the two lengths
/// and in space proportional to their sum; `Line` is the type that holds a
/// score line.
pub fn hirschberg_diff<Line, SeqA, SeqB, SeqC>(a: SeqA, b: SeqB) -> (diff: SeqC) where
    SeqA: SequenceIterator,
    SeqA::Item: PartialEq,
    SeqB: SequenceIterator<Item = SeqA::Item>,
    SeqC: Difference<SeqA::Item>,
    Line: NwScoreLine,

    requires
        obeys_concrete_eq::<SeqA::Item>(),
        b@.len() < usize::MAX,
    ensures
        diff.kept() == diff_of(a@, b@).filter(kept_by::<SeqA::Item, SeqC>()),
{
    let (a_len, b_len) = (a.len(), b.len());
    let mut lcs = SeqC::empty();
    hirschberg_diff_inner::<Line, _, _, _>(SeqIter::new(a, a_len), SeqIter::new(b, b_len), &mut lcs);
    assert(Seq::<DiffItem<SeqA::Item>>::empty() + diff_of(a@, b@).filter(
        kept_by::<SeqA::Item, SeqC>(),
    ) =~= diff_of(a@, b@).filter(kept_by::<SeqA::Item, SeqC>()));
    lcs
}

/// Hirschberg's algorithm with a choice of how score lines are held.
pub trait HirschbergAlg {
    /// The type that holds a score line.
    type Line: NwScoreLine;

    /// The longest common subsequence of `a` and `b` that the alignment of
    /// the two picks, collected in a `SeqC`.
    fn lcs<SeqA, SeqB, SeqC>(a: SeqA, b: SeqB) -> (common: SeqC) where
        SeqA: SequenceIterator,
        SeqA::Item: PartialEq,
        SeqB: SequenceIterator<Item = SeqA::Item>,
        SeqC: Insert<SeqA::Item>,

        requires
            obeys_concrete_eq::<SeqA::Item>(),
            b@.len() < usize::MAX,
        ensures
            common.items() == lcs_of(a@, b@),
    {
        let sink = hirschberg_diff::<Self::Line, _, _, Lcs<SeqC>>(a, b);
        proof {
            let shared = diff_of(a@, b@).filter(in_both());
            assert(kept_by::<SeqA::Item, Lcs<SeqC>>() =~= in_both::<SeqA::Item>());
            assert(sink.0.items() =~= sink.kept().map_values(untag()));
            lemma_sides_diff_of(a@, b@);
        }
        sink.0
    }

    /// The alignment of `a` and `b`, collected in a `SeqC`: every element of
    /// both, tagged with where it occurs.
    fn diff<SeqA, SeqB, SeqC>(a: SeqA, b: SeqB) -> (alignment: SeqC) where
        SeqA: SequenceIterator,
        SeqA::Item: PartialEq,
        SeqB: SequenceIterator<Item = SeqA::Item>,
        SeqC: Insert<DiffItem<SeqA::Item>>,

        requires
            obeys_concrete_eq::<SeqA::Item>(),
            b@.len() < usize::MAX,
        ensures
            alignment.items() == diff_of(a@, b@),
    {
        let sink = hirschberg_diff::<Self::Line, _, _, Diff<SeqC>>(a, b);
        proof {
            lemma_filter_keeps_all(diff_of(a@, b@), kept_by::<SeqA::Item, Diff<SeqC>>());
        }
        sink.0
    }
}

/// Hirschberg's algorithm with score lines held in vectors.
pub struct Hirschberg;

impl HirschbergAlg for Hirschberg {
    type Line = Vec<usize>;
}

} // verus!
