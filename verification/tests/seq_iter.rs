use ng_diff::{SeqIter, SequenceIterator, SliceIter};

#[test]
fn test_seq_iter() {
    let a = [1, 2, 3];

    let mut iter = SeqIter::new(SliceIter::new(&a), a.len());
    assert_eq!(3, iter.len());
    assert_eq!(Some(&1), iter.next());
    assert_eq!(Some(&2), iter.next());
    assert_eq!(Some(&3), iter.next());
    assert_eq!(None, iter.next());
    assert_eq!(0, iter.len());

    let mut iter = SeqIter::new(SliceIter::new(&a), a.len());
    assert_eq!(3, iter.len());
    assert_eq!(Some(&3), iter.next_back());
    assert_eq!(Some(&2), iter.next_back());
    assert_eq!(Some(&1), iter.next_back());
    assert_eq!(None, iter.next_back());
    assert_eq!(0, iter.len());

    let mut iter = SeqIter::new(SliceIter::new(&a), a.len()).take(0);
    assert_eq!(0, iter.len());
    assert_eq!(None, iter.next());
    assert_eq!(0, iter.len());

    let mut iter = SeqIter::new(SliceIter::new(&a), a.len()).take(1);
    assert_eq!(1, iter.len());
    assert_eq!(Some(&1), iter.next());
    assert_eq!(None, iter.next());
    assert_eq!(0, iter.len());

    let mut iter = SeqIter::new(SliceIter::new(&a), a.len()).take(2);
    assert_eq!(2, iter.len());
    assert_eq!(Some(&1), iter.next());
    assert_eq!(Some(&2), iter.next());
    assert_eq!(None, iter.next());
    assert_eq!(0, iter.len());

    let mut iter = SeqIter::new(SliceIter::new(&a), a.len()).take(3);
    assert_eq!(3, iter.len());
    assert_eq!(Some(&1), iter.next());
    assert_eq!(Some(&2), iter.next());
    assert_eq!(Some(&3), iter.next());
    assert_eq!(None, iter.next());
    assert_eq!(0, iter.len());

    let mut iter = SeqIter::new(SliceIter::new(&a), a.len()).take(4);
    assert_eq!(3, iter.len());
    assert_eq!(Some(&1), iter.next());
    assert_eq!(Some(&2), iter.next());
    assert_eq!(Some(&3), iter.next());
    assert_eq!(None, iter.next());
    assert_eq!(0, iter.len());

    let mut iter = SeqIter::new(SliceIter::new(&a), a.len()).skip(0);
    assert_eq!(3, iter.len());
    assert_eq!(Some(&1), iter.next());
    assert_eq!(Some(&2), iter.next());
    assert_eq!(Some(&3), iter.next());
    assert_eq!(None, iter.next());
    assert_eq!(0, iter.len());

    let mut iter = SeqIter::new(SliceIter::new(&a), a.len()).skip(1);
    assert_eq!(2, iter.len());
    assert_eq!(Some(&2), iter.next());
    assert_eq!(Some(&3), iter.next());
    assert_eq!(None, iter.next());
    assert_eq!(0, iter.len());

    let mut iter = SeqIter::new(SliceIter::new(&a), a.len()).skip(2);
    assert_eq!(1, iter.len());
    assert_eq!(Some(&3), iter.next());
    assert_eq!(None, iter.next());
    assert_eq!(0, iter.len());

    let mut iter = SeqIter::new(SliceIter::new(&a), a.len()).skip(3);
    assert_eq!(0, iter.len());
    assert_eq!(None, iter.next());
    assert_eq!(0, iter.len());

    let mut iter = SeqIter::new(SliceIter::new(&a), a.len()).skip(4);
    assert_eq!(0, iter.len());
    assert_eq!(None, iter.next());
    assert_eq!(0, iter.len());

    let mut iter = SeqIter::new(SliceIter::new(&a), a.len()).rev();
    assert_eq!(3, iter.len());
    assert_eq!(Some(&3), iter.next());
    assert_eq!(Some(&2), iter.next());
    assert_eq!(Some(&1), iter.next());
    assert_eq!(None, iter.next());
    assert_eq!(0, iter.len());

    let mut iter = SeqIter::new(SliceIter::new(&a), a.len()).skip(1).rev();
    assert_eq!(2, iter.len());
    assert_eq!(Some(&3), iter.next());
    assert_eq!(Some(&2), iter.next());
    assert_eq!(None, iter.next());
    assert_eq!(0, iter.len());

    let mut iter = SeqIter::new(SliceIter::new(&a), a.len()).skip(1).rev().take(1);
    assert_eq!(1, iter.len());
    assert_eq!(Some(&3), iter.next());
    assert_eq!(None, iter.next());
    assert_eq!(0, iter.len());

    let mut iter = SeqIter::new(SliceIter::new(&a), a.len()).take(2).rev();
    assert_eq!(2, iter.len());
    assert_eq!(Some(&2), iter.next());
    assert_eq!(Some(&1), iter.next());
    assert_eq!(None, iter.next());
    assert_eq!(0, iter.len());

    let mut iter = SeqIter::new(SliceIter::new(&a), a.len()).take(2).rev().skip(1);
    assert_eq!(1, iter.len());
    assert_eq!(Some(&1), iter.next());
    assert_eq!(None, iter.next());
    assert_eq!(0, iter.len());
}
