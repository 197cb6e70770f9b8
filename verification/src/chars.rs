//! A cursor over the characters of a string.

use crate::seq::SequenceIterator;
use vstd::prelude::*;

verus! {

/// Anything whose text can be walked character by character.
pub trait AsCharsIter {
    /// The characters of the text, in order.
    spec fn chars(&self) -> Seq<char>;

    /// A cursor that has the whole text before it.
    fn chars_iter(&self) -> (it: CharsIter<'_>)
        ensures
            it@ == self.chars(),
    ;
}

impl AsCharsIter for str {
    open spec fn chars(&self) -> Seq<char> {
        self@
    }

    fn chars_iter(&self) -> (it: CharsIter<'_>) {
        CharsIter::new(self)
    }
}

impl AsCharsIter for String {
    open spec fn chars(&self) -> Seq<char> {
        self@
    }

    fn chars_iter(&self) -> (it: CharsIter<'_>) {
        CharsIter::new(self.as_str())
    }
}

/// Cursor over the `char`s of a string slice that knows how many are left.
/// Positions count characters, not bytes; a step finds its character by
/// decoding the text from its start, so it takes time linear in the text.
#[derive(Debug)]
pub struct CharsIter<'a> {
    source: &'a str,
    front: usize,
    back: usize,
}

impl<'a> CharsIter<'a> {
    #[verifier::type_invariant]
    spec fn in_bounds(self) -> bool {
        self.front <= self.back <= self.source@.len()
    }

    /// A cursor that has all the characters of `source` before it.
    pub fn new(source: &'a str) -> (it: Self)
        ensures
            it@ == source@,
    {
        let len = source.unicode_len();
        let it = CharsIter { source, front: 0, back: len };
        assert(it@ =~= source@);
        it
    }

    /// The part of the text that has not been taken yet.
    pub fn as_str(&self) -> (rest: &'a str)
        ensures
            rest@ == self@,
    {
        proof {
            use_type_invariant(self);
        }
        self.source.substring_char(self.front, self.back)
    }

    /// Lower and upper bound of the number of characters left; both are
    /// exact.
    pub fn size_hint(&self) -> (bounds: (usize, Option<usize>))
        ensures
            bounds.0 == self@.len(),
            bounds.1 == Some(bounds.0),
    {
        let n = self.len();
        (n, Some(n))
    }

    /// Number of characters left; consumes the cursor.
    pub fn count(self) -> (n: usize)
        ensures
            n == self@.len(),
    {
        self.len()
    }

    /// The last character left, if any; consumes the cursor.
    pub fn last(self) -> (item: Option<char>)
        ensures
            self@.len() > 0 ==> item == Some(self@.last()),
            self@.len() == 0 ==> item is None,
    {
        let mut it = self;
        it.next_back()
    }
}

impl<'a> SequenceIterator for CharsIter<'a> {
    type Item = char;

    closed spec fn view(&self) -> Seq<char> {
        self.source@.subrange(self.front as int, self.back as int)
    }

    fn len(&self) -> (n: usize) {
        proof {
            use_type_invariant(self);
        }
        self.back - self.front
    }

    fn next(&mut self) -> (item: Option<char>) {
        proof {
            use_type_invariant(&*self);
        }
        if self.front < self.back {
            let i = self.front;
            self.front = i + 1;
            assert(self@ =~= old(self)@.drop_first());
            Some(self.source.get_char(i))
        } else {
            None
        }
    }

    fn next_back(&mut self) -> (item: Option<char>) {
        proof {
            use_type_invariant(&*self);
        }
        if self.front < self.back {
            let i = self.back - 1;
            self.back = i;
            assert(self@ =~= old(self)@.drop_last());
            Some(self.source.get_char(i))
        } else {
            None
        }
    }

    fn nth(&mut self, n: usize) -> (item: Option<char>) {
        proof {
            use_type_invariant(&*self);
        }
        if n < self.back - self.front {
            let i = self.front + n;
            self.front = i + 1;
            assert(self@ =~= old(self)@.skip(n + 1));
            Some(self.source.get_char(i))
        } else {
            self.front = self.back;
            assert(self@ =~= Seq::<char>::empty());
            None
        }
    }

    fn nth_back(&mut self, n: usize) -> (item: Option<char>) {
        proof {
            use_type_invariant(&*self);
        }
        if n < self.back - self.front {
            let i = self.back - 1 - n;
            self.back = i;
            assert(self@ =~= old(self)@.take(old(self)@.len() - 1 - n));
            Some(self.source.get_char(i))
        } else {
            self.back = self.front;
            assert(self@ =~= Seq::<char>::empty());
            None
        }
    }

    fn clone(&self) -> (copy: Self) {
        proof {
            use_type_invariant(self);
        }
        CharsIter { source: self.source, front: self.front, back: self.back }
    }
}

impl<'a> From<&'a str> for CharsIter<'a> {
    fn from(source: &'a str) -> (it: Self) {
        let len = source.unicode_len();
        CharsIter { source, front: 0, back: len }
    }
}

impl<'a> vstd::std_specs::convert::FromSpecImpl<&'a str> for CharsIter<'a> {
    open spec fn obeys_from_spec() -> bool {
        true
    }

    closed spec fn from_spec(source: &'a str) -> Self {
        CharsIter { source, front: 0, back: source@.len() as usize }
    }
}

/// A cursor made from a string slice whose characters can be counted in a
/// `usize` has the whole text before it.
pub proof fn lemma_from_text<'a>(text: &'a str)
    requires
        text@.len() <= usize::MAX,
    ensures
        <CharsIter<'a> as vstd::std_specs::convert::FromSpec<&'a str>>::from_spec(text)@ == text@,
{
    let made = <CharsIter<'a> as vstd::std_specs::convert::FromSpec<&'a str>>::from_spec(text);
    assert(made@ =~= text@);
}

} // verus!
