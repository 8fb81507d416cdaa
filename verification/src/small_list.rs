//! Short lists of 64-bit words, kept in a [`SmallVec`] so that up to four of
//! them need no allocation.

use smallvec::SmallVec;
use vstd::prelude::*;

verus! {

/// A list of words that stores its first four words inline.
#[verifier::external_body]
pub struct SmallList {
    words: SmallVec<[u64; 4]>,
}

/// The words of a list, in order.
pub uninterp spec fn list_words(list: SmallList) -> Seq<u64>;

/// [`SmallVec::new`]: an empty list.
#[verifier::external_body]
fn list_new() -> (list: SmallList)
    ensures
        list_words(list).len() == 0,
{
    SmallList { words: SmallVec::new() }
}

/// [`SmallVec::push`]: adds a word at the end.
#[verifier::external_body]
fn list_push(list: &mut SmallList, word: u64)
    ensures
        list_words(*final(list)) == list_words(*old(list)).push(word),
{
    list.words.push(word)
}

/// [`SmallVec::len`]: the number of words.
#[verifier::external_body]
fn list_len(list: &SmallList) -> (len: usize)
    ensures
        len == list_words(*list).len(),
{
    list.words.len()
}

/// [`SmallVec::as_slice`]: the words, in order.
#[verifier::external_body]
fn list_as_slice(list: &SmallList) -> (words: &[u64])
    ensures
        words@ == list_words(*list),
{
    list.words.as_slice()
}

/// [`SmallVec::clear`]: removes every word.
#[verifier::external_body]
fn list_clear(list: &mut SmallList)
    ensures
        list_words(*final(list)).len() == 0,
{
    list.words.clear()
}

impl View for SmallList {
    type V = Seq<u64>;

    open spec fn view(&self) -> Seq<u64> {
        list_words(*self)
    }
}

impl SmallList {
    /// An empty list.
    pub fn new() -> (list: Self)
        ensures
            list@ == Seq::<u64>::empty(),
    {
        let list = list_new();
        assert(list@ =~= Seq::<u64>::empty());
        list
    }

    /// Adds a word at the end.
    pub fn push(&mut self, word: u64)
        ensures
            final(self)@ == old(self)@.push(word),
    {
        list_push(self, word)
    }

    /// The number of words.
    pub fn len(&self) -> (len: usize)
        ensures
            len == self@.len(),
    {
        list_len(self)
    }

    /// Whether there is no word.
    pub fn is_empty(&self) -> (empty: bool)
        ensures
            empty == (self@.len() == 0),
    {
        list_len(self) == 0
    }

    /// The word at position `i`.
    pub fn get(&self, i: usize) -> (word: u64)
        requires
            i < self@.len(),
        ensures
            word == self@[i as int],
    {
        list_as_slice(self)[i]
    }

    /// The words as a slice.
    pub fn as_slice(&self) -> (words: &[u64])
        ensures
            words@ == self@,
    {
        list_as_slice(self)
    }

    /// Removes every word.
    pub fn clear(&mut self)
        ensures
            final(self)@ == Seq::<u64>::empty(),
    {
        list_clear(self);
        assert(self@ =~= Seq::<u64>::empty());
    }

    /// Adds the words of `other` at the end.
    pub fn append(&mut self, other: &SmallList)
        ensures
            final(self)@ == old(self)@ + other@,
    {
        let n: usize = other.len();
        for i in 0..n
            invariant
                n == other@.len(),
                self@ == old(self)@ + other@.take(i as int),
        {
            assert(other@.take(i + 1) =~= other@.take(i as int).push(other@[i as int]));
            self.push(other.get(i));
        }
        assert(other@.take(other@.len() as int) =~= other@);
    }

    /// A list with the same words.
    pub fn duplicate(&self) -> (list: Self)
        ensures
            list@ == self@,
    {
        let mut list = SmallList::new();
        list.append(self);
        assert(Seq::<u64>::empty() + self@ =~= self@);
        list
    }
}

} // verus!
