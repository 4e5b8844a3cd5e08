//! The bounded list that holds the neighbours of one cell.

use vstd::prelude::*;
use arrayvec::ArrayVec;

verus! {

/// A list of at most eight grid positions, kept in an `arrayvec::ArrayVec`.
/// What it holds is known to the verifier only as `neighbour_items`.
#[verifier::external_body]
pub struct NeighbourList {
    held: ArrayVec<[[usize; 2]; 8]>,
}

/// The positions that a neighbour list holds, in the order in which they were pushed.
pub uninterp spec fn neighbour_items(list: &NeighbourList) -> Seq<(int, int)>;

/// A position as a pair of mathematical integers.
pub open spec fn coords(pos: [usize; 2]) -> (int, int) {
    (pos[0] as int, pos[1] as int)
}

/// Calls `ArrayVec::new`, which makes a list that holds nothing.
#[verifier::external_body]
pub(crate) fn empty_list() -> (list: NeighbourList)
    ensures
        neighbour_items(&list) == Seq::<(int, int)>::empty(),
{
    NeighbourList { held: ArrayVec::new() }
}

/// Calls `ArrayVec::push`, which appends the element at the end and panics
/// when the list is already full; the list here has room for eight.
#[verifier::external_body]
pub(crate) fn push_position(list: &mut NeighbourList, x: usize, y: usize)
    requires
        neighbour_items(old(list)).len() < 8,
    ensures
        neighbour_items(final(list)) == neighbour_items(old(list)).push((x as int, y as int)),
{
    list.held.push([x, y])
}

/// Calls `ArrayVec::as_slice`, which hands out the elements held, in order.
#[verifier::external_body]
pub(crate) fn positions(list: &NeighbourList) -> (held: &[[usize; 2]])
    ensures
        held@.len() == neighbour_items(list).len(),
        forall|i: int| 0 <= i < held@.len() ==> neighbour_items(list)[i] == coords(#[trigger] held@[i]),
{
    list.held.as_slice()
}

impl NeighbourList {
    /// How many positions the list holds.
    pub fn len(&self) -> (n: usize)
        ensures
            n == neighbour_items(self).len(),
    {
        positions(self).len()
    }

    /// The position at place `i`, counted from zero.
    pub fn get(&self, i: usize) -> (pos: [usize; 2])
        requires
            i < neighbour_items(self).len(),
        ensures
            coords(pos) == neighbour_items(self)[i as int],
    {
        let held = positions(self);
        held[i]
    }
}

} // verus!
