//! A cursor over a borrowed slice.

use crate::seq::SequenceIterator;
use vstd::laws_eq::obeys_concrete_eq;
use vstd::prelude::*;

verus! {

/// The references to the elements of `items`, in order.
pub open spec fn refs<'a, T>(items: Seq<T>) -> Seq<&'a T> {
    Seq::new(items.len(), |i: int| &items[i])
}

/// Where `==` on `T` tells whether two values are the same, `==` on
/// references to `T` does so too.
pub proof fn lemma_refs_obey_concrete_eq<T: PartialEq>()
    requires
        obeys_concrete_eq::<T>(),
    ensures
        obeys_concrete_eq::<&T>(),
{
    reveal(obeys_concrete_eq);
}

/// Cursor over the elements of a borrowed slice. It yields references, so
/// the elements are never copied, and stepping from either end is a matter
/// of moving an index.
#[derive(Debug)]
pub struct SliceIter<'a, T> {
    items: &'a [T],
    front: usize,
    back: usize,
}

impl<'a, T> SliceIter<'a, T> {
    #[verifier::type_invariant]
    spec fn in_bounds(self) -> bool {
        self.front <= self.back <= self.items@.len()
    }

    /// A cursor that has all of `items` before it.
    pub fn new(items: &'a [T]) -> (it: Self)
        ensures
            it@ == refs(items@),
    {
        let it = SliceIter { items, front: 0, back: items.len() };
        assert(it@ =~= refs(items@));
        it
    }

    /// The same cursor, yielding the elements themselves in place of
    /// references to them.
    pub fn copied(self) -> (it: CopiedIter<'a, T>) where T: Copy
        ensures
            it@ == values(self@),
    {
        CopiedIter { inner: self }
    }
}

impl<'a, T> SequenceIterator for SliceIter<'a, T> {
    type Item = &'a T;

    closed spec fn view(&self) -> Seq<&'a T> {
        refs(self.items@.subrange(self.front as int, self.back as int))
    }

    fn len(&self) -> (n: usize) {
        proof {
            use_type_invariant(self);
        }
        self.back - self.front
    }

    fn next(&mut self) -> (item: Option<&'a T>) {
        proof {
            use_type_invariant(&*self);
        }
        if self.front < self.back {
            let i = self.front;
            self.front = i + 1;
            assert(self@ =~= old(self)@.drop_first());
            Some(&self.items[i])
        } else {
            None
        }
    }

    fn next_back(&mut self) -> (item: Option<&'a T>) {
        proof {
            use_type_invariant(&*self);
        }
        if self.front < self.back {
            let i = self.back - 1;
            self.back = i;
            assert(self@ =~= old(self)@.drop_last());
            Some(&self.items[i])
        } else {
            None
        }
    }

    fn nth(&mut self, n: usize) -> (item: Option<&'a T>) {
        proof {
            use_type_invariant(&*self);
        }
        if n < self.back - self.front {
            let i = self.front + n;
            self.front = i + 1;
            assert(self@ =~= old(self)@.skip(n + 1));
            Some(&self.items[i])
        } else {
            self.front = self.back;
            assert(self@ =~= Seq::<&'a T>::empty());
            None
        }
    }

    fn nth_back(&mut self, n: usize) -> (item: Option<&'a T>) {
        proof {
            use_type_invariant(&*self);
        }
        if n < self.back - self.front {
            let i = self.back - 1 - n;
            self.back = i;
            assert(self@ =~= old(self)@.take(old(self)@.len() - 1 - n));
            Some(&self.items[i])
        } else {
            self.back = self.front;
            assert(self@ =~= Seq::<&'a T>::empty());
            None
        }
    }

    fn clone(&self) -> (copy: Self) {
        proof {
            use_type_invariant(self);
        }
        SliceIter { items: self.items, front: self.front, back: self.back }
    }
}

/// The elements that `items` refers to, in order.
pub open spec fn values<'a, T>(items: Seq<&'a T>) -> Seq<T> {
    Seq::new(items.len(), |i: int| *items[i])
}

/// Cursor over the elements of a borrowed slice of a `Copy` type that
/// yields the elements by value.
#[derive(Debug)]
pub struct CopiedIter<'a, T: Copy> {
    inner: SliceIter<'a, T>,
}

impl<'a, T: Copy> SequenceIterator for CopiedIter<'a, T> {
    type Item = T;

    closed spec fn view(&self) -> Seq<T> {
        values(self.inner@)
    }

    fn len(&self) -> (n: usize) {
        self.inner.len()
    }

    fn next(&mut self) -> (item: Option<T>) {
        let item = self.inner.next();
        assert(old(self)@.len() > 0 ==> self@ =~= old(self)@.drop_first());
        match item {
            Some(element) => Some(*element),
            None => None,
        }
    }

    fn next_back(&mut self) -> (item: Option<T>) {
        let item = self.inner.next_back();
        assert(old(self)@.len() > 0 ==> self@ =~= old(self)@.drop_last());
        match item {
            Some(element) => Some(*element),
            None => None,
        }
    }

    fn nth(&mut self, n: usize) -> (item: Option<T>) {
        let item = self.inner.nth(n);
        assert(self@ =~= if n < old(self)@.len() {
            old(self)@.skip(n + 1)
        } else {
            Seq::<T>::empty()
        });
        match item {
            Some(element) => Some(*element),
            None => None,
        }
    }

    fn nth_back(&mut self, n: usize) -> (item: Option<T>) {
        let item = self.inner.nth_back(n);
        assert(self@ =~= if n < old(self)@.len() {
            old(self)@.take(old(self)@.len() - 1 - n)
        } else {
            Seq::<T>::empty()
        });
        match item {
            Some(element) => Some(*element),
            None => None,
        }
    }

    fn clone(&self) -> (copy: Self) {
        CopiedIter { inner: self.inner.clone() }
    }
}

} // verus!
