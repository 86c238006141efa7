use vstd::prelude::*;
use crate::types::bitboard::Bitboard;
use crate::types::moves::Move;
use crate::types::moves::MoveType;
use crate::types::square::Square;

verus! {

/// A list of moves, in the order in which they were added.
#[derive(Debug)]
pub struct MoveList {
    pub moves: Vec<Move>,
}

/// The moves of one kind from the square `start` to each of `targets`, in order.
pub open spec fn moves_to(start: int, targets: Seq<int>, tag: int) -> Seq<Move> {
    Seq::new(targets.len(), |k: int| Move::encode(start, targets[k], tag))
}

impl View for MoveList {
    type V = Seq<Move>;

    open spec fn view(&self) -> Seq<Move> {
        self.moves@
    }
}

impl MoveList {
    /// The number of moves in the list.
    pub fn len(&self) -> (n: usize)
        ensures
            n == self@.len(),
    {
        self.moves.len()
    }

    /// The move at position `i`.
    pub fn get(&self, i: usize) -> (m: Move)
        requires
            i < self@.len(),
        ensures
            m == self@[i as int],
    {
        self.moves[i]
    }

    /// Adds a move at the end.
    pub fn push(&mut self, m: Move)
        ensures
            final(self)@ == old(self)@.push(m),
    {
        self.moves.push(m);
    }

    /// Adds the move of the given kind between two squares of the board.
    pub fn add(&mut self, start: Square, target: Square, move_type: MoveType)
        requires
            start != Square::Null,
            target != Square::Null,
        ensures
            final(self)@ == old(self)@.push(
                Move::encode(start.idx(), target.idx(), move_type.tag()),
            ),
    {
        self.push(Move::new(start, target, move_type))
    }

    /// Adds a move of the given kind from `start` to each square of `targets`,
    /// in increasing order of the squares.
    pub fn add_many(&mut self, start: Square, targets: Bitboard, move_type: MoveType)
        requires
            start != Square::Null,
        ensures
            final(self)@ == old(self)@ + moves_to(
                start.idx(),
                targets.squares(),
                move_type.tag(),
            ),
    {
        let mut rest = targets;
        let ghost mut done: Seq<int> = Seq::empty();
        assert(moves_to(start.idx(), done, move_type.tag()) =~= Seq::<Move>::empty());
        assert(old(self)@ + Seq::<Move>::empty() =~= old(self)@);
        while !rest.is_empty()
            invariant
                start != Square::Null,
                targets.squares() == done + rest.squares(),
                self@ == old(self)@ + moves_to(start.idx(), done, move_type.tag()),
            decreases rest.0,
        {
            proof {
                crate::bits::lemma_drop_lowest(rest.0);
                crate::bits::lemma_lowest(rest.0);
            }
            let ghost before = rest.squares();
            let t = rest.pop();
            self.add(start, t, move_type);
            proof {
                let next = done.push(t.idx());
                assert(next + rest.squares() =~= done + before);
                assert(moves_to(start.idx(), next, move_type.tag()) =~= moves_to(
                    start.idx(),
                    done,
                    move_type.tag(),
                ).push(Move::encode(start.idx(), t.idx(), move_type.tag())));
                assert(old(self)@ + moves_to(start.idx(), next, move_type.tag()) =~= (old(self)@
                    + moves_to(start.idx(), done, move_type.tag())).push(
                    Move::encode(start.idx(), t.idx(), move_type.tag()),
                ));
                done = next;
            }
        }
        proof {
            crate::bits::lemma_bits_of_zero();
            assert(done + rest.squares() =~= done);
        }
    }
}

impl Clone for MoveList {
    fn clone(&self) -> (l: MoveList)
        ensures
            l@ == self@,
    {
        MoveList { moves: self.moves.clone() }
    }
}

impl Default for MoveList {
    fn default() -> (l: MoveList)
        ensures
            l@ == Seq::<Move>::empty(),
    {
        MoveList { moves: Vec::new() }
    }
}

} // verus!
