//! Score lines, result sinks and the windowed cursors the algorithm walks.

use vstd::prelude::*;

verus! {

/// One line of the Needleman-Wunsch score matrix: a fixed number of cells,
/// each read and written by index.
pub trait NwScoreLine: Sized {
    /// The cells, in order.
    spec fn scores(&self) -> Seq<usize>;

    /// A line of `len` cells that all hold zero.
    fn zeroed(len: usize) -> (line: Self)
        ensures
            line.scores() == Seq::new(len as nat, |i: int| 0usize),
    ;

    /// Number of cells.
    fn len(&self) -> (n: usize)
        ensures
            n == self.scores().len(),
    ;

    /// Reads cell `idx`.
    fn get(&self, idx: usize) -> (score: usize)
        requires
            idx < self.scores().len(),
        ensures
            score == self.scores()[idx as int],
    ;

    /// Overwrites cell `idx`; every other cell keeps its value.
    fn set(&mut self, idx: usize, score: usize)
        requires
            idx < old(self).scores().len(),
        ensures
            final(self).scores() == old(self).scores().update(idx as int, score),
    ;
}

impl NwScoreLine for Vec<usize> {
    open spec fn scores(&self) -> Seq<usize> {
        self@
    }

    fn zeroed(len: usize) -> (line: Self) {
        let mut line: Vec<usize> = Vec::with_capacity(len);
        let mut i: usize = 0;
        while i < len
            invariant
                i <= len,
                line@ == Seq::new(i as nat, |k: int| 0usize),
            decreases len - i,
        {
            line.push(0);
            i += 1;
            assert(line@ =~= Seq::new(i as nat, |k: int| 0usize));
        }
        line
    }

    fn len(&self) -> (n: usize) {
        self.len()
    }

    fn get(&self, idx: usize) -> (score: usize) {
        self[idx]
    }

    fn set(&mut self, idx: usize, score: usize) {
        self[idx] = score;
    }
}

/// An ordered collection that grows at its end.
pub trait Insert<T>: Sized {
    /// What the collection holds, oldest first.
    spec fn items(&self) -> Seq<T>;

    /// A collection that holds nothing.
    fn empty() -> (fresh: Self)
        ensures
            fresh.items() == Seq::<T>::empty(),
    ;

    /// Appends `item`.
    fn insert(&mut self, item: T)
        ensures
            final(self).items() == old(self).items().push(item),
    ;
}

impl<T> Insert<T> for Vec<T> {
    open spec fn items(&self) -> Seq<T> {
        self@
    }

    fn empty() -> (fresh: Self) {
        Vec::new()
    }

    fn insert(&mut self, item: T) {
        self.push(item)
    }
}

/// One element of an alignment of two sequences, tagged with where it occurs.
#[derive(Clone, Debug, PartialEq, Eq)]
pub enum DiffItem<T> {
    /// Present in the first sequence only.
    First(T),
    /// Present in both sequences.
    Both(T),
    /// Present in the second sequence only.
    Second(T),
}

impl<T> DiffItem<T> {
    /// The element without its tag.
    pub open spec fn value(self) -> T {
        match self {
            DiffItem::First(x) => x,
            DiffItem::Both(x) => x,
            DiffItem::Second(x) => x,
        }
    }

    /// Strips the tag.
    pub fn into_inner(self) -> (inner: T)
        ensures
            inner == self.value(),
    {
        match self {
            DiffItem::First(x) => x,
            DiffItem::Both(x) => x,
            DiffItem::Second(x) => x,
        }
    }
}

/// A sink for the tagged elements of an alignment. A sink may keep only some
/// tags; what it keeps, it keeps in arrival order.
pub trait Difference<T>: Sized {
    /// Whether the sink keeps an element with this tag.
    spec fn keeps(item: DiffItem<T>) -> bool;

    /// The tagged elements kept so far, oldest first.
    spec fn kept(&self) -> Seq<DiffItem<T>>;

    /// A sink that has kept nothing.
    fn empty() -> (fresh: Self)
        ensures
            fresh.kept() == Seq::<DiffItem<T>>::empty(),
    ;

    /// Offers an element of the first sequence that has no partner.
    fn push_first(&mut self, item: T)
        ensures
            final(self).kept() == if Self::keeps(DiffItem::First(item)) {
                old(self).kept().push(DiffItem::First(item))
            } else {
                old(self).kept()
            },
    ;

    /// Offers an element that the two sequences share.
    fn push_both(&mut self, item: T)
        ensures
            final(self).kept() == if Self::keeps(DiffItem::Both(item)) {
                old(self).kept().push(DiffItem::Both(item))
            } else {
                old(self).kept()
            },
    ;

    /// Offers an element of the second sequence that has no partner.
    fn push_second(&mut self, item: T)
        ensures
            final(self).kept() == if Self::keeps(DiffItem::Second(item)) {
                old(self).kept().push(DiffItem::Second(item))
            } else {
                old(self).kept()
            },
    ;
}

/// Sink that keeps the shared elements only, untagged, in the wrapped collection.
#[derive(Clone, Debug)]
pub struct Lcs<T>(pub T);

/// Sink that keeps every element with its tag in the wrapped collection.
#[derive(Clone, Debug)]
pub struct Diff<T>(pub T);

impl<T, I: Insert<T>> Difference<T> for Lcs<I> {
    open spec fn keeps(item: DiffItem<T>) -> bool {
        item is Both
    }

    open spec fn kept(&self) -> Seq<DiffItem<T>> {
        self.0.items().map_values(|x: T| DiffItem::Both(x))
    }

    fn empty() -> (fresh: Self) {
        let fresh = Lcs(I::empty());
        assert(fresh.kept() =~= Seq::<DiffItem<T>>::empty());
        fresh
    }

    fn push_first(&mut self, _item: T) {
    }

    fn push_both(&mut self, item: T) {
        self.0.insert(item);
        assert(self.kept() =~= old(self).kept().push(DiffItem::Both(item)));
    }

    fn push_second(&mut self, _item: T) {
    }
}

impl<T, I: Insert<DiffItem<T>>> Difference<T> for Diff<I> {
    open spec fn keeps(item: DiffItem<T>) -> bool {
        true
    }

    open spec fn kept(&self) -> Seq<DiffItem<T>> {
        self.0.items()
    }

    fn empty() -> (fresh: Self) {
        Diff(I::empty())
    }

    fn push_first(&mut self, item: T) {
        self.0.insert(DiffItem::First(item))
    }

    fn push_both(&mut self, item: T) {
        self.0.insert(DiffItem::Both(item))
    }

    fn push_second(&mut self, item: T) {
        self.0.insert(DiffItem::Second(item))
    }
}

/// A bidirectional cursor over a finite sequence. It knows exactly how many
/// items are left, and it can be cloned so that one sequence is walked many
/// times.
pub trait SequenceIterator: Sized {
    type Item;

    /// The items still to come, front to back.
    spec fn view(&self) -> Seq<Self::Item>;

    /// Number of items left.
    fn len(&self) -> (n: usize)
        ensures
            n == self@.len(),
    ;

    /// Takes the item at the front, if any is left.
    fn next(&mut self) -> (item: Option<Self::Item>)
        ensures
            old(self)@.len() > 0 ==> item == Some(old(self)@.first()) && final(self)@ == old(
                self,
            )@.drop_first(),
            old(self)@.len() == 0 ==> item is None && final(self)@ == old(self)@,
    ;

    /// Takes the item at the back, if any is left.
    fn next_back(&mut self) -> (item: Option<Self::Item>)
        ensures
            old(self)@.len() > 0 ==> item == Some(old(self)@.last()) && final(self)@ == old(
                self,
            )@.drop_last(),
            old(self)@.len() == 0 ==> item is None && final(self)@ == old(self)@,
    ;

    /// Discards `n` items at the front and takes the one after them. With
    /// `n` items or fewer left, discards them all and takes none.
    fn nth(&mut self, n: usize) -> (item: Option<Self::Item>)
        ensures
            n < old(self)@.len() ==> item == Some(old(self)@[n as int]) && final(self)@ == old(
                self,
            )@.skip(n + 1),
            n >= old(self)@.len() ==> item is None && final(self)@ == Seq::<Self::Item>::empty(),
    ;

    /// Discards `n` items at the back and takes the one before them. With
    /// `n` items or fewer left, discards them all and takes none.
    fn nth_back(&mut self, n: usize) -> (item: Option<Self::Item>)
        ensures
            n < old(self)@.len() ==> item == Some(old(self)@[old(self)@.len() - 1 - n])
                && final(self)@ == old(self)@.take(old(self)@.len() - 1 - n),
            n >= old(self)@.len() ==> item is None && final(self)@ == Seq::<Self::Item>::empty(),
    ;

    /// An independent cursor over the same items. Consuming one of the two
    /// leaves the other as it was.
    fn clone(&self) -> (copy: Self)
        ensures
            copy@ == self@,
    ;
}

/// A window onto an underlying cursor: a prefix of what the cursor has left,
/// read forwards or backwards. Narrowing and reversing move the window's
/// bounds and never copy an item.
#[derive(Debug)]
pub struct SeqIter<I: SequenceIterator> {
    iter: I,
    rest: usize,
    reverse: bool,
}

impl<I: SequenceIterator> SeqIter<I> {
    /// The window in the order of the underlying cursor: its first `rest`
    /// items, or all of them where it has fewer.
    closed spec fn window(&self) -> Seq<I::Item> {
        if self.rest < self.iter@.len() {
            self.iter@.take(self.rest as int)
        } else {
            self.iter@
        }
    }

    /// Whether the window is read back to front.
    closed spec fn reversed(&self) -> bool {
        self.reverse
    }

    /// A forward window onto the first `len` items of `iter`, or onto all of
    /// them where it has fewer.
    pub fn new(iter: I, len: usize) -> (it: Self)
        ensures
            it@ == if len < iter@.len() {
                iter@.take(len as int)
            } else {
                iter@
            },
    {
        SeqIter { iter, rest: len, reverse: false }
    }

    /// Takes the first item of the window in the cursor's own order.
    fn own_next(&mut self) -> (item: Option<I::Item>)
        ensures
            final(self).reversed() == old(self).reversed(),
            old(self).window().len() > 0 ==> item == Some(old(self).window().first())
                && final(self).window() == old(self).window().drop_first(),
            old(self).window().len() == 0 ==> item is None && final(self).window() == old(
                self,
            ).window(),
    {
        if self.rest > 0 {
            self.rest -= 1;
            let item = self.iter.next();
            assert(self.window() =~= if old(self).window().len() > 0 {
                old(self).window().drop_first()
            } else {
                old(self).window()
            });
            item
        } else {
            assert(old(self).window() =~= Seq::<I::Item>::empty());
            None
        }
    }

    /// Discards `n` items at the start of the window, in the cursor's own
    /// order, and takes the one after them.
    fn own_nth(&mut self, n: usize) -> (item: Option<I::Item>)
        ensures
            final(self).reversed() == old(self).reversed(),
            n < old(self).window().len() ==> item == Some(old(self).window()[n as int])
                && final(self).window() == old(self).window().skip(n + 1),
            n >= old(self).window().len() ==> item is None && final(self).window() == Seq::<
                I::Item,
            >::empty(),
    {
        if self.rest > n {
            self.rest -= n + 1;
            let item = self.iter.nth(n);
            assert(self.window() =~= if n < old(self).window().len() {
                old(self).window().skip(n + 1)
            } else {
                Seq::<I::Item>::empty()
            });
            item
        } else {
            if self.rest > 0 {
                self.iter.nth(self.rest - 1);
                self.rest = 0;
            }
            assert(self.window() =~= Seq::<I::Item>::empty());
            None
        }
    }

    /// Takes the last item of the window in the cursor's own order.
    fn own_next_back(&mut self) -> (item: Option<I::Item>)
        ensures
            final(self).reversed() == old(self).reversed(),
            old(self).window().len() > 0 ==> item == Some(old(self).window().last())
                && final(self).window() == old(self).window().drop_last(),
            old(self).window().len() == 0 ==> item is None && final(self).window() == old(
                self,
            ).window(),
    {
        if self.rest == 0 {
            assert(old(self).window() =~= Seq::<I::Item>::empty());
            None
        } else {
            let rest = self.rest;
            self.rest -= 1;
            let len = self.iter.len();
            let beyond = if len > rest { len - rest } else { 0 };
            let item = self.iter.nth_back(beyond);
            assert(self.window() =~= if old(self).window().len() > 0 {
                old(self).window().drop_last()
            } else {
                old(self).window()
            });
            item
        }
    }

    /// Discards `n` items at the end of the window, in the cursor's own
    /// order, and takes the one before them.
    fn own_nth_back(&mut self, n: usize) -> (item: Option<I::Item>)
        ensures
            final(self).reversed() == old(self).reversed(),
            n < old(self).window().len() ==> item == Some(
                old(self).window()[old(self).window().len() - 1 - n],
            ) && final(self).window() == old(self).window().take(
                old(self).window().len() - 1 - n,
            ),
            n >= old(self).window().len() ==> item is None && final(self).window() == Seq::<
                I::Item,
            >::empty(),
    {
        let len = self.iter.len();
        if self.rest > n {
            let beyond = if len > self.rest { len - self.rest } else { 0 };
            let m = beyond + n;
            self.rest -= n + 1;
            let item = self.iter.nth_back(m);
            assert(self.window() =~= if n < old(self).window().len() {
                old(self).window().take(old(self).window().len() - 1 - n)
            } else {
                Seq::<I::Item>::empty()
            });
            item
        } else {
            if len > 0 {
                self.iter.nth_back(len - 1);
            }
            self.rest = 0;
            assert(self.window() =~= Seq::<I::Item>::empty());
            None
        }
    }

    /// Narrows the window to its first `n` items; with `n` items or fewer
    /// left, the window stays as it is.
    pub fn take(self, n: usize) -> (it: Self)
        ensures
            it@ == if n < self@.len() {
                self@.take(n as int)
            } else {
                self@
            },
    {
        let mut it = self;
        let len = it.len();
        if n < len {
            if it.reverse {
                it.own_nth(len - n - 1);
            } else {
                it.own_nth_back(len - n - 1);
            }
            assert(it@ =~= self@.take(n as int));
        }
        it
    }

    /// Drops the first `n` items of the window; with `n` items or fewer left,
    /// the window becomes empty.
    pub fn skip(self, n: usize) -> (it: Self)
        ensures
            it@ == if n < self@.len() {
                self@.skip(n as int)
            } else {
                Seq::<I::Item>::empty()
            },
    {
        let mut it = self;
        if n > 0 {
            if it.reverse {
                it.own_nth_back(n - 1);
            } else {
                it.own_nth(n - 1);
            }
            assert(it@ =~= if n < self@.len() {
                self@.skip(n as int)
            } else {
                Seq::<I::Item>::empty()
            });
        } else {
            assert(self@.skip(0) =~= self@);
        }
        it
    }

    /// Turns the window around: what was last comes first.
    pub fn rev(self) -> (it: Self)
        ensures
            it@ == self@.reverse(),
    {
        let mut it = self;
        it.reverse = !it.reverse;
        assert(it@ =~= self@.reverse());
        it
    }

    /// Lower and upper bound of the number of items left; both are exact.
    pub fn size_hint(&self) -> (bounds: (usize, Option<usize>))
        ensures
            bounds.0 == self@.len(),
            bounds.1 == Some(bounds.0),
    {
        let n = self.len();
        (n, Some(n))
    }
}

impl<I: SequenceIterator> SequenceIterator for SeqIter<I> {
    type Item = I::Item;

    closed spec fn view(&self) -> Seq<I::Item> {
        if self.reverse {
            self.window().reverse()
        } else {
            self.window()
        }
    }

    fn len(&self) -> (n: usize) {
        let available = self.iter.len();
        if self.rest < available {
            self.rest
        } else {
            available
        }
    }

    fn next(&mut self) -> (item: Option<I::Item>) {
        if self.reverse {
            let item = self.own_next_back();
            assert(old(self)@.len() > 0 ==> self@ =~= old(self)@.drop_first());
            item
        } else {
            self.own_next()
        }
    }

    fn next_back(&mut self) -> (item: Option<I::Item>) {
        if self.reverse {
            let item = self.own_next();
            assert(old(self)@.len() > 0 ==> self@ =~= old(self)@.drop_last());
            item
        } else {
            self.own_next_back()
        }
    }

    fn nth(&mut self, n: usize) -> (item: Option<I::Item>) {
        if self.reverse {
            let item = self.own_nth_back(n);
            assert(self@ =~= if n < old(self)@.len() {
                old(self)@.skip(n + 1)
            } else {
                Seq::<I::Item>::empty()
            });
            item
        } else {
            self.own_nth(n)
        }
    }

    fn nth_back(&mut self, n: usize) -> (item: Option<I::Item>) {
        if self.reverse {
            let item = self.own_nth(n);
            assert(self@ =~= if n < old(self)@.len() {
                old(self)@.take(old(self)@.len() - 1 - n)
            } else {
                Seq::<I::Item>::empty()
            });
            item
        } else {
            self.own_nth_back(n)
        }
    }

    fn clone(&self) -> (copy: Self) {
        SeqIter { iter: self.iter.clone(), rest: self.rest, reverse: self.reverse }
    }
}

} // verus!
