//! The piece bag: an endless supply of pieces in which every run of seven
//! draws that starts with a fresh bag holds each kind once.
use vstd::prelude::*;
use vstd::seq_lib::{to_multiset_contains, to_multiset_len};
use crate::piece::Tetromino;
use crate::trusted::{bag_as_slice, bag_extend, bag_new, bag_pop, bag_shuffle, pieces_of};

verus! {

/// The seven kinds in the order in which a bag is filled before it is
/// shuffled.
pub open spec fn all_kinds() -> Seq<Tetromino> {
    seq![
        Tetromino::J,
        Tetromino::L,
        Tetromino::S,
        Tetromino::Z,
        Tetromino::T,
        Tetromino::O,
        Tetromino::I,
    ]
}

/// A fresh bag: the seven kinds in some order.
pub open spec fn full_bag(pieces: Seq<Tetromino>) -> bool {
    pieces.to_multiset() == all_kinds().to_multiset()
}

/// The first `n` pieces that leave the bag `pieces`, in the order in which
/// they are drawn. Drawing ends when the bag is empty.
pub open spec fn draws(pieces: Seq<Tetromino>, n: nat) -> Seq<Tetromino>
    decreases n,
{
    if n == 0 || pieces.len() == 0 {
        Seq::empty()
    } else {
        seq![pieces.last()] + draws(pieces.drop_last(), (n - 1) as nat)
    }
}

/// The pieces still to come before the bag is filled again.
pub struct TetrominoQueue {
    queue: heapless::Vec<Tetromino, 7>,
}

impl View for TetrominoQueue {
    type V = Seq<Tetromino>;

    /// The pieces in the bag; the last one is drawn next.
    closed spec fn view(&self) -> Seq<Tetromino> {
        pieces_of(self.queue)
    }
}

impl TetrominoQueue {
    /// A bag in play holds at least one piece and none twice.
    pub open spec fn wf(&self) -> bool {
        self@.len() >= 1 && self@.no_duplicates()
    }

    /// An empty bag. It has to be filled by `init` before a piece is drawn.
    pub fn new() -> (bag: Self)
        ensures
            bag@ == Seq::<Tetromino>::empty(),
    {
        TetrominoQueue { queue: bag_new() }
    }

    /// Fills the bag with the seven kinds and shuffles them.
    pub fn init(&mut self, rng: &mut rand::rngs::SmallRng)
        ensures
            full_bag(final(self)@),
            final(self).wf(),
    {
        let kinds: [Tetromino; 7] = [
            Tetromino::J,
            Tetromino::L,
            Tetromino::S,
            Tetromino::Z,
            Tetromino::T,
            Tetromino::O,
            Tetromino::I,
        ];
        self.queue = bag_new();
        let _ = bag_extend(&mut self.queue, kinds.as_slice());
        proof {
            assert(kinds@ =~= all_kinds());
            assert(Seq::<Tetromino>::empty() + kinds@ =~= kinds@);
        }
        bag_shuffle(&mut self.queue, rng);
        proof {
            lemma_full_bag_holds_each_kind_once(self@);
        }
    }

    /// Draws the next piece. When that empties the bag it is filled and
    /// shuffled again at once.
    pub fn next(&mut self, rng: &mut rand::rngs::SmallRng) -> (piece: Tetromino)
        requires
            old(self)@.len() >= 1,
        ensures
            piece == old(self)@.last(),
            old(self)@.len() > 1 ==> final(self)@ == old(self)@.drop_last(),
            old(self)@.len() == 1 ==> full_bag(final(self)@),
            old(self).wf() ==> final(self).wf(),
    {
        let drawn = bag_pop(&mut self.queue);
        let piece = match drawn {
            Some(piece) => piece,
            None => {
                proof {
                    assert(false);
                }
                Tetromino::J
            },
        };
        if bag_as_slice(&self.queue).len() == 0 {
            self.init(rng);
        }
        piece
    }

    /// The piece that the next draw returns.
    pub fn peek(&self) -> (piece: Tetromino)
        requires
            self@.len() >= 1,
        ensures
            piece == self@.last(),
    {
        let pieces = bag_as_slice(&self.queue);
        pieces[pieces.len() - 1]
    }
}

/// A fresh bag holds seven pieces, none twice, and every kind.
pub proof fn lemma_full_bag_holds_each_kind_once(pieces: Seq<Tetromino>)
    requires
        full_bag(pieces),
    ensures
        pieces.len() == 7,
        pieces.no_duplicates(),
        forall|kind: Tetromino| pieces.contains(kind),
{
    let kinds = all_kinds();
    to_multiset_len(pieces);
    to_multiset_len(kinds);
    assert(kinds.no_duplicates());
    kinds.lemma_multiset_has_no_duplicates();
    pieces.lemma_multiset_has_no_duplicates_conv();
    assert forall|kind: Tetromino| pieces.contains(kind) by {
        to_multiset_contains(pieces, kind);
        to_multiset_contains(kinds, kind);
        match kind {
            Tetromino::J => assert(kinds[0] == kind),
            Tetromino::L => assert(kinds[1] == kind),
            Tetromino::S => assert(kinds[2] == kind),
            Tetromino::Z => assert(kinds[3] == kind),
            Tetromino::T => assert(kinds[4] == kind),
            Tetromino::O => assert(kinds[5] == kind),
            Tetromino::I => assert(kinds[6] == kind),
        }
    }
}

/// Drawing every piece of a bag gives its pieces from the last to the first.
pub proof fn lemma_draws_empty_the_bag_backwards(pieces: Seq<Tetromino>)
    ensures
        draws(pieces, pieces.len()) == pieces.reverse(),
    decreases pieces.len(),
{
    if pieces.len() > 0 {
        lemma_draws_empty_the_bag_backwards(pieces.drop_last());
        assert(seq![pieces.last()] + pieces.drop_last().reverse() =~= pieces.reverse());
    } else {
        assert(pieces.reverse() =~= Seq::<Tetromino>::empty());
    }
}

/// Seven draws from a fresh bag give each of the seven kinds exactly once.
pub proof fn lemma_seven_draws_give_each_kind_once(pieces: Seq<Tetromino>)
    requires
        full_bag(pieces),
    ensures
        draws(pieces, 7).len() == 7,
        draws(pieces, 7).no_duplicates(),
        forall|kind: Tetromino| draws(pieces, 7).contains(kind),
        full_bag(draws(pieces, 7)),
{
    lemma_full_bag_holds_each_kind_once(pieces);
    lemma_draws_empty_the_bag_backwards(pieces);
    pieces.lemma_reverse_to_multiset();
    lemma_full_bag_holds_each_kind_once(pieces.reverse());
}

} // verus!
