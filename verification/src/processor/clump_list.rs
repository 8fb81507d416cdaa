//! A short list of positions in a buffer, kept in an [`ArrayVec`] so that it
//! never allocates.

use arrayvec::ArrayVec;
use vstd::prelude::*;

verus! {

/// An array-backed vector of `arrayvec`.
#[verifier::external_type_specification]
#[verifier::external_body]
#[verifier::reject_recursive_types(T)]
pub struct ExArrayVec<T, const CAP: usize>(ArrayVec<T, CAP>);

/// The positions in a list, in order.
pub uninterp spec fn clump_positions(list: ArrayVec<u32, 8>) -> Seq<u32>;

/// The largest number of positions in a list.
pub const MAX_CLUMP_INDICES: usize = 8;

/// [`ArrayVec::new`]: an empty list.
#[verifier::external_body]
fn array_new() -> (list: ArrayVec<u32, 8>)
    ensures
        clump_positions(list).len() == 0,
{
    ArrayVec::new()
}

/// [`ArrayVec::try_push`]: adds a position at the end, unless there are eight
/// already. Returns whether it was added.
#[verifier::external_body]
fn array_try_push(list: &mut ArrayVec<u32, 8>, position: u32) -> (added: bool)
    ensures
        added == (clump_positions(*old(list)).len() < 8),
        clump_positions(*final(list)) == (if added {
            clump_positions(*old(list)).push(position)
        } else {
            clump_positions(*old(list))
        }),
{
    list.try_push(position).is_ok()
}

/// [`ArrayVec::as_slice`]: the positions, in order.
#[verifier::external_body]
fn array_as_slice(list: &ArrayVec<u32, 8>) -> (positions: &[u32])
    ensures
        positions@ == clump_positions(*list),
{
    list.as_slice()
}

/// [`ArrayVec::clear`]: removes every position.
#[verifier::external_body]
fn array_clear(list: &mut ArrayVec<u32, 8>)
    ensures
        clump_positions(*final(list)).len() == 0,
{
    list.clear()
}

/// A list of up to [`MAX_CLUMP_INDICES`] positions.
pub struct ClumpList {
    positions: ArrayVec<u32, 8>,
}

impl View for ClumpList {
    type V = Seq<u32>;

    closed spec fn view(&self) -> Seq<u32> {
        clump_positions(self.positions)
    }
}

impl ClumpList {
    /// An empty list.
    pub fn new() -> (list: Self)
        ensures
            list@ == Seq::<u32>::empty(),
    {
        let list = ClumpList { positions: array_new() };
        assert(list@ =~= Seq::<u32>::empty());
        list
    }

    /// Adds a position at the end, unless the list is full.
    pub fn try_push(&mut self, position: u32)
        ensures
            final(self)@ == (if old(self)@.len() < MAX_CLUMP_INDICES {
                old(self)@.push(position)
            } else {
                old(self)@
            }),
    {
        array_try_push(&mut self.positions, position);
    }

    /// The number of positions.
    pub fn len(&self) -> (len: usize)
        ensures
            len == self@.len(),
    {
        array_as_slice(&self.positions).len()
    }

    /// The `i`th position.
    pub fn get(&self, i: usize) -> (position: u32)
        requires
            i < self@.len(),
        ensures
            position == self@[i as int],
    {
        array_as_slice(&self.positions)[i]
    }

    /// Removes every position.
    pub fn clear(&mut self)
        ensures
            final(self)@ == Seq::<u32>::empty(),
    {
        array_clear(&mut self.positions);
        assert(self@ =~= Seq::<u32>::empty());
    }
}

} // verus!
