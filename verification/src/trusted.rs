//! What this library takes on trust from the `heapless` and `rand` crates.
//!
//! The fixed-capacity vectors of `heapless` hold the pending changes and the
//! piece bag; `rand` shuffles the bag. Verus does not look into either crate.
//! Each item below states what the library relies on, and nothing here is
//! proved.
use vstd::prelude::*;
use crate::piece::{Cell, Coordination, Tetromino};
use rand::seq::SliceRandom;

verus! {

/// `heapless::Vec`, a vector of at most `N` items kept in place. Its inside
/// is hidden from the proofs.
#[verifier::external_type_specification]
#[verifier::external_body]
#[verifier::reject_recursive_types(T)]
pub struct ExFixedVec<T, const N: usize>(heapless::Vec<T, N>);

/// `rand::rngs::SmallRng`, the random number generator that shuffles the bag.
/// Nothing is said of the numbers it gives.
#[verifier::external_type_specification]
#[verifier::external_body]
pub struct ExSmallRng(rand::rngs::SmallRng);

/// The changes that a list of pending changes holds, oldest first.
pub uninterp spec fn entries_of(list: heapless::Vec<(Coordination, Cell), 16>) -> Seq<
    (Coordination, Cell),
>;

/// The pieces that a bag holds; the last one is drawn next.
pub uninterp spec fn pieces_of(bag: heapless::Vec<Tetromino, 7>) -> Seq<Tetromino>;

/// `heapless::Vec::new`: the new list holds nothing.
#[verifier::external_body]
pub(crate) fn entries_new() -> (list: heapless::Vec<(Coordination, Cell), 16>)
    ensures
        entries_of(list) == Seq::<(Coordination, Cell)>::empty(),
{
    heapless::Vec::new()
}

/// `heapless::Vec::push`: with fewer than 16 items in the list the item is
/// appended; with 16 the list stays as it is and the item comes back.
#[verifier::external_body]
pub(crate) fn entries_push(
    list: &mut heapless::Vec<(Coordination, Cell), 16>,
    item: (Coordination, Cell),
) -> (pushed: Result<(), (Coordination, Cell)>)
    ensures
        pushed is Ok <==> entries_of(*old(list)).len() < 16,
        pushed is Ok ==> entries_of(*final(list)) == entries_of(*old(list)).push(item),
        pushed matches Err(back) ==> back == item && entries_of(*final(list)) == entries_of(
            *old(list),
        ),
{
    list.push(item)
}

/// `heapless::Vec::as_slice`: the slice holds the items of the list in their
/// order.
#[verifier::external_body]
pub(crate) fn entries_as_slice(list: &heapless::Vec<(Coordination, Cell), 16>) -> (items: &[(
    Coordination,
    Cell,
)])
    ensures
        items@ == entries_of(*list),
{
    list.as_slice()
}

/// `heapless::Vec::as_mut_slice`, written at one index: the item there is
/// replaced and the others stay.
#[verifier::external_body]
pub(crate) fn entries_set(
    list: &mut heapless::Vec<(Coordination, Cell), 16>,
    index: usize,
    item: (Coordination, Cell),
)
    requires
        index < entries_of(*old(list)).len(),
    ensures
        entries_of(*final(list)) == entries_of(*old(list)).update(index as int, item),
{
    list.as_mut_slice()[index] = item;
}

/// `heapless::Vec::new`: the new bag holds nothing.
#[verifier::external_body]
pub(crate) fn bag_new() -> (bag: heapless::Vec<Tetromino, 7>)
    ensures
        pieces_of(bag) == Seq::<Tetromino>::empty(),
{
    heapless::Vec::new()
}

/// `heapless::Vec::extend_from_slice`: where all of `pieces` fit beside what
/// the bag holds they are appended in their order; otherwise the bag stays as
/// it is and the call reports an error.
#[verifier::external_body]
pub(crate) fn bag_extend(bag: &mut heapless::Vec<Tetromino, 7>, pieces: &[Tetromino]) -> (extended:
    Result<(), ()>)
    ensures
        extended is Ok <==> pieces_of(*old(bag)).len() + pieces@.len() <= 7,
        extended is Ok ==> pieces_of(*final(bag)) == pieces_of(*old(bag)) + pieces@,
        extended is Err ==> pieces_of(*final(bag)) == pieces_of(*old(bag)),
{
    bag.extend_from_slice(pieces)
}

/// `heapless::Vec::pop`: the last piece leaves the bag and is returned; an
/// empty bag stays empty and gives nothing.
#[verifier::external_body]
pub(crate) fn bag_pop(bag: &mut heapless::Vec<Tetromino, 7>) -> (drawn: Option<Tetromino>)
    ensures
        drawn is Some <==> pieces_of(*old(bag)).len() > 0,
        drawn matches Some(piece) ==> piece == pieces_of(*old(bag)).last() && pieces_of(
            *final(bag),
        ) == pieces_of(*old(bag)).drop_last(),
        drawn is None ==> pieces_of(*final(bag)) == pieces_of(*old(bag)),
{
    bag.pop()
}

/// `heapless::Vec::as_slice`: the slice holds the pieces of the bag in their
/// order.
#[verifier::external_body]
pub(crate) fn bag_as_slice(bag: &heapless::Vec<Tetromino, 7>) -> (pieces: &[Tetromino])
    ensures
        pieces@ == pieces_of(*bag),
{
    bag.as_slice()
}

/// `rand::seq::SliceRandom::shuffle` on the bag: the bag holds the same
/// pieces as before, each as often as before. Their order is left open.
#[verifier::external_body]
pub(crate) fn bag_shuffle(bag: &mut heapless::Vec<Tetromino, 7>, rng: &mut rand::rngs::SmallRng)
    ensures
        pieces_of(*final(bag)).to_multiset() == pieces_of(*old(bag)).to_multiset(),
{
    bag.as_mut_slice().shuffle(rng);
}

} // verus!
