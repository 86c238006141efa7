use vstd::prelude::*;
use vstd::std_specs::ops::AddSpecImpl;
use crate::board::legal::most_moves;
use crate::board::Board;
use crate::board::BoardState;
use crate::board::Position;
use crate::types::moves::FullMove;
use crate::types::moves::Move;
use crate::types::square::Square;

verus! {

/// What a walk of the move tree has counted at its leaves.
#[derive(Copy, Clone, PartialEq, Eq, Structural, Debug)]
pub struct PerftResult {
    pub nodes: u64,
    pub captures: u64,
    pub en_passants: u64,
    pub castles: u64,
    pub promotions: u64,
    pub checks: u64,
    pub checkmates: u64,
}

/// The counts of a walk as numbers without bound.
pub struct Tally {
    pub nodes: nat,
    pub captures: nat,
    pub en_passants: nat,
    pub castles: nat,
    pub promotions: nat,
    pub checks: nat,
    pub checkmates: nat,
}

/// A position with its history: the earlier states and the moves made.
pub struct Game {
    pub position: Position,
    pub states: Seq<BoardState>,
    pub moves: Seq<FullMove>,
}

/// 1 for true, 0 for false.
pub open spec fn unit(b: bool) -> nat {
    if b {
        1
    } else {
        0
    }
}

impl Tally {
    /// Nothing counted.
    pub open spec fn zero() -> Tally {
        Tally {
            nodes: 0,
            captures: 0,
            en_passants: 0,
            castles: 0,
            promotions: 0,
            checks: 0,
            checkmates: 0,
        }
    }

    /// The sum of two tallies, count by count.
    pub open spec fn plus(self, other: Tally) -> Tally {
        Tally {
            nodes: self.nodes + other.nodes,
            captures: self.captures + other.captures,
            en_passants: self.en_passants + other.en_passants,
            castles: self.castles + other.castles,
            promotions: self.promotions + other.promotions,
            checks: self.checks + other.checks,
            checkmates: self.checkmates + other.checkmates,
        }
    }

    /// Whether no count is larger than the count of nodes.
    pub open spec fn within_nodes(self) -> bool {
        &&& self.captures <= self.nodes
        &&& self.en_passants <= self.nodes
        &&& self.castles <= self.nodes
        &&& self.promotions <= self.nodes
        &&& self.checks <= self.nodes
        &&& self.checkmates <= self.nodes
    }
}

impl PerftResult {
    /// The counts as numbers without bound.
    pub open spec fn tally(self) -> Tally {
        Tally {
            nodes: self.nodes as nat,
            captures: self.captures as nat,
            en_passants: self.en_passants as nat,
            castles: self.castles as nat,
            promotions: self.promotions as nat,
            checks: self.checks as nat,
            checkmates: self.checkmates as nat,
        }
    }
}

impl PerftResult {
    /// Whether each count of the sum with `rhs` fits its counter.
    pub open spec fn fits_with(self, rhs: PerftResult) -> bool {
        &&& self.nodes + rhs.nodes <= u64::MAX
        &&& self.captures + rhs.captures <= u64::MAX
        &&& self.en_passants + rhs.en_passants <= u64::MAX
        &&& self.castles + rhs.castles <= u64::MAX
        &&& self.promotions + rhs.promotions <= u64::MAX
        &&& self.checks + rhs.checks <= u64::MAX
        &&& self.checkmates + rhs.checkmates <= u64::MAX
    }

    /// The sum with `rhs`, count by count.
    pub open spec fn sum_with(self, rhs: PerftResult) -> PerftResult {
        PerftResult {
            nodes: (self.nodes + rhs.nodes) as u64,
            captures: (self.captures + rhs.captures) as u64,
            en_passants: (self.en_passants + rhs.en_passants) as u64,
            castles: (self.castles + rhs.castles) as u64,
            promotions: (self.promotions + rhs.promotions) as u64,
            checks: (self.checks + rhs.checks) as u64,
            checkmates: (self.checkmates + rhs.checkmates) as u64,
        }
    }
}

impl core::ops::Add for PerftResult {
    type Output = PerftResult;

    fn add(self, rhs: PerftResult) -> (r: PerftResult) {
        PerftResult {
            nodes: self.nodes + rhs.nodes,
            captures: self.captures + rhs.captures,
            en_passants: self.en_passants + rhs.en_passants,
            castles: self.castles + rhs.castles,
            promotions: self.promotions + rhs.promotions,
            checks: self.checks + rhs.checks,
            checkmates: self.checkmates + rhs.checkmates,
        }
    }
}

impl AddSpecImpl for PerftResult {
    open spec fn obeys_add_spec() -> bool {
        true
    }

    open spec fn add_req(self, rhs: PerftResult) -> bool {
        self.fits_with(rhs)
    }

    open spec fn add_spec(self, rhs: PerftResult) -> PerftResult {
        self.sum_with(rhs)
    }
}

impl core::ops::AddAssign for PerftResult {
    fn add_assign(&mut self, rhs: PerftResult)
        requires
            old(self).fits_with(rhs),
        ensures
            *final(self) == old(self).sum_with(rhs),
    {
        self.nodes = self.nodes + rhs.nodes;
        self.captures = self.captures + rhs.captures;
        self.en_passants = self.en_passants + rhs.en_passants;
        self.castles = self.castles + rhs.castles;
        self.promotions = self.promotions + rhs.promotions;
        self.checks = self.checks + rhs.checks;
        self.checkmates = self.checkmates + rhs.checkmates;
    }
}

impl Default for PerftResult {
    fn default() -> (r: PerftResult)
        ensures
            r.tally() == Tally::zero(),
    {
        PerftResult {
            nodes: 0,
            captures: 0,
            en_passants: 0,
            castles: 0,
            promotions: 0,
            checks: 0,
            checkmates: 0,
        }
    }
}

impl Position {
    /// What a leaf counts: one node, and by the move that led to it whether
    /// that was a capture, an en passant capture, a castling move or a
    /// promotion, and whether it gave check or checkmate. A leaf without a
    /// move before it counts as one node and nothing else.
    pub open spec fn leaf(self, last: Option<Move>) -> Tally {
        match last {
            None => Tally { nodes: 1, ..Tally::zero() },
            Some(mv) => {
                let check = self.check_state().first.checking_piece != Square::Null;
                Tally {
                    nodes: 1,
                    captures: unit(mv.captures()),
                    en_passants: unit(mv.tag() == 5),
                    castles: unit(mv.castles()),
                    promotions: unit(mv.promotes()),
                    checks: unit(check),
                    checkmates: unit(check && self.legal_moves().len() == 0),
                }
            },
        }
    }

    /// What the leaves of the move tree of the given depth below the position
    /// count together, `last` being the move that led to the position.
    pub open spec fn tree(self, last: Option<Move>, depth: nat) -> Tally
        decreases depth, 1nat, 0nat,
    {
        if depth == 0 {
            self.leaf(last)
        } else {
            self.tree_below(self.legal_moves(), depth)
        }
    }

    /// What the leaves of the trees below the given moves count together.
    pub open spec fn tree_below(self, moves: Seq<Move>, depth: nat) -> Tally
        decreases depth, 0nat, moves.len(),
    {
        if depth == 0 || moves.len() == 0 {
            Tally::zero()
        } else {
            self.tree_below(moves.drop_last(), depth).plus(
                self.after(moves.last()).tree(Some(moves.last()), (depth - 1) as nat),
            )
        }
    }
}

impl Game {
    /// The game after a move is made. A refused move changes nothing.
    pub open spec fn made(self, mv: Move) -> Game {
        if self.position.refuses(mv) {
            self
        } else {
            Game {
                position: self.position.after(mv),
                states: self.states.push(self.position.state),
                moves: self.moves.push(self.position.record_of(mv)),
            }
        }
    }

    /// The game after the last move is taken back. With an empty history
    /// nothing changes.
    pub open spec fn undone(self) -> Game {
        if self.moves.len() == 0 {
            self
        } else {
            Game {
                position: self.position.before(self.moves.last(), self.states.last()),
                states: self.states.drop_last(),
                moves: self.moves.drop_last(),
            }
        }
    }

    /// The move that led to the game, if one did.
    pub open spec fn last_move(self) -> Option<Move> {
        if self.moves.len() == 0 {
            None
        } else {
            Some(self.moves.last().inner_move)
        }
    }

    /// What the game counts as a leaf.
    pub open spec fn leaf(self) -> Tally {
        self.position.leaf(self.last_move())
    }

    /// What a walk of the given depth counts, and the game in which it ends.
    /// At depth 0 the game is a leaf. Otherwise each legal move of the
    /// position is made in turn, the walk goes on one level deeper, and the
    /// move is taken back.
    pub open spec fn walk(self, depth: nat) -> (Tally, Game)
        decreases depth, 1nat, 0nat,
    {
        if depth == 0 {
            (self.leaf(), self)
        } else {
            self.walk_moves(self.position.legal_moves(), depth)
        }
    }

    /// What the walks below the given moves count together, and the game in
    /// which the last of them ends.
    pub open spec fn walk_moves(self, moves: Seq<Move>, depth: nat) -> (Tally, Game)
        decreases depth, 0nat, moves.len(),
    {
        if depth == 0 || moves.len() == 0 {
            (Tally::zero(), self)
        } else {
            let (counted, game) = self.walk_moves(moves.drop_last(), depth);
            let (below, ended) = game.made(moves.last()).walk((depth - 1) as nat);
            (counted.plus(below), ended.undone())
        }
    }

    /// Whether the clocks of the position and of every earlier state leave
    /// room for `depth` more moves.
    pub open spec fn clocks_leave(self, depth: nat) -> bool {
        &&& self.position.state.halfmove_clock + depth <= u8::MAX
        &&& forall|k: int|
            0 <= k < self.states.len() ==> (#[trigger] self.states[k]).halfmove_clock + depth
                <= u8::MAX
    }
}

impl Board {
    /// The position that the board holds, with its history.
    pub open spec fn game(&self) -> Game {
        Game { position: self.position(), states: self.state_stack@, moves: self.move_stack@ }
    }
}

/// More nodes than a walk of the given depth can count: the largest number
/// of legal moves, once for each level.
pub open spec fn walk_limit(depth: nat) -> nat
    decreases depth,
{
    if depth == 0 {
        1
    } else {
        most_moves() * walk_limit((depth - 1) as nat)
    }
}

/// Whether the states `ended` with the state `last` may be what is left of
/// the states `states` with the state `state` after moves were made and taken
/// back: `ended` holds the first of `states`, and `last` is the state that
/// followed them.
pub open spec fn follows(
    states: Seq<BoardState>,
    state: BoardState,
    ended: Seq<BoardState>,
    last: BoardState,
) -> bool {
    &&& ended.len() <= states.len()
    &&& ended == states.take(ended.len() as int)
    &&& ended.len() == states.len() ==> last == state
    &&& ended.len() < states.len() ==> last == states[ended.len() as int]
}

/// Making a move, walking on and taking a move back keeps the states in line.
pub proof fn lemma_follows_step(
    states: Seq<BoardState>,
    state: BoardState,
    mid: Seq<BoardState>,
    mid_state: BoardState,
    pushed: bool,
    new_state: BoardState,
    ended: Seq<BoardState>,
    last: BoardState,
)
    requires
        follows(states, state, mid, mid_state),
        follows(
            if pushed {
                mid.push(mid_state)
            } else {
                mid
            },
            if pushed {
                new_state
            } else {
                mid_state
            },
            ended,
            last,
        ),
    ensures
        follows(
            states,
            state,
            if ended.len() > 0 {
                ended.drop_last()
            } else {
                ended
            },
            if ended.len() > 0 {
                ended.last()
            } else {
                last
            },
        ),
{
    let next = if pushed {
        mid.push(mid_state)
    } else {
        mid
    };
    let k = ended.len() as int;
    if k > 0 {
        assert(ended.drop_last() =~= states.take(k - 1));
        assert(ended.last() == next[k - 1]);
    } else {
        assert(ended =~= states.take(0));
    }
}

impl Game {
    /// Whether the game has one earlier state for each move of its history.
    pub open spec fn balanced(self) -> bool {
        self.states.len() == self.moves.len()
    }

    /// Whether `ended` may be the game in which a walk from this game ends:
    /// its earlier states are the first of this game's, and its state is the
    /// one that followed them.
    pub open spec fn leads_to(self, ended: Game) -> bool {
        ended.balanced() && follows(
            self.states,
            self.position.state,
            ended.states,
            ended.position.state,
        )
    }

    /// A walk ends in a game made of this game's states, and counts no more
    /// captures, checks and the like than nodes.
    pub proof fn lemma_walk(self, depth: nat)
        requires
            self.balanced(),
        ensures
            self.leads_to(self.walk(depth).1),
            self.walk(depth).0.within_nodes(),
        decreases depth, 1nat, 0nat,
    {
        if depth == 0 {
            assert(self.states.take(self.states.len() as int) =~= self.states);
        } else {
            self.lemma_walk_moves(self.position.legal_moves(), depth);
        }
    }

    /// The same for the walks below the given moves.
    pub proof fn lemma_walk_moves(self, moves: Seq<Move>, depth: nat)
        requires
            self.balanced(),
        ensures
            self.leads_to(self.walk_moves(moves, depth).1),
            self.walk_moves(moves, depth).0.within_nodes(),
        decreases depth, 0nat, moves.len(),
    {
        if depth == 0 || moves.len() == 0 {
            assert(self.states.take(self.states.len() as int) =~= self.states);
        } else {
            let (counted, game) = self.walk_moves(moves.drop_last(), depth);
            self.lemma_walk_moves(moves.drop_last(), depth);
            let next = game.made(moves.last());
            next.lemma_walk((depth - 1) as nat);
            let (below, ended) = next.walk((depth - 1) as nat);
            let back = ended.undone();
            let pushed = !game.position.refuses(moves.last());
            reveal(Position::before);
            assert(next.states == (if pushed {
                game.states.push(game.position.state)
            } else {
                game.states
            }));
            assert(back.states == (if ended.states.len() > 0 {
                ended.states.drop_last()
            } else {
                ended.states
            }));
            assert(back.position.state == (if ended.states.len() > 0 {
                ended.states.last()
            } else {
                ended.position.state
            }));
            lemma_follows_step(
                self.states,
                self.position.state,
                game.states,
                game.position.state,
                pushed,
                next.position.state,
                ended.states,
                ended.position.state,
            );
        }
    }

    /// A move that suits the position, made and taken back, leaves the game
    /// as it was: the position and the history.
    pub proof fn lemma_made_undone(self, mv: Move)
        requires
            self.position.consistent(),
            self.position.fits(mv),
        ensures
            self.made(mv).undone() == self,
    {
        self.position.lemma_round_trip(mv);
        assert(self.states.push(self.position.state).drop_last() =~= self.states);
        assert(self.moves.push(self.position.record_of(mv)).drop_last() =~= self.moves);
    }

    /// In a sound position every legal move, made and taken back, leaves the
    /// game as it was.
    pub proof fn lemma_legal_made_undone(self, k: int)
        requires
            self.position.sound(),
            0 <= k < self.position.legal_moves().len(),
        ensures
            self.made(self.position.legal_moves()[k]).undone() == self,
    {
        self.position.lemma_legal_moves_fit(k);
        self.lemma_made_undone(self.position.legal_moves()[k]);
    }

    /// From a position that is sound for both sides a walk ends in the game
    /// in which it began.
    pub proof fn lemma_walk_restores(self, depth: nat)
        requires
            self.position.fully_sound(),
        ensures
            self.walk(depth).1 == self,
        decreases depth, 1nat, 0nat,
    {
        if depth > 0 {
            let moves = self.position.legal_moves();
            assert forall|i: int| 0 <= i < moves.len() implies self.position.proper(
                #[trigger] moves[i],
            ) by {
                self.position.lemma_legal_moves_proper(i);
            }
            self.lemma_walk_moves_restores(moves, depth);
        }
    }

    /// The same for the walks below moves that are what their tags say.
    pub proof fn lemma_walk_moves_restores(self, moves: Seq<Move>, depth: nat)
        requires
            self.position.fully_sound(),
            forall|i: int| 0 <= i < moves.len() ==> self.position.proper(#[trigger] moves[i]),
        ensures
            self.walk_moves(moves, depth).1 == self,
        decreases depth, 0nat, moves.len(),
    {
        if depth > 0 && moves.len() > 0 {
            let front = moves.drop_last();
            let mv = moves.last();
            assert forall|i: int| 0 <= i < front.len() implies self.position.proper(
                #[trigger] front[i],
            ) by {
                assert(front[i] == moves[i]);
            }
            self.lemma_walk_moves_restores(front, depth);
            assert(self.position.proper(moves[moves.len() - 1]));
            self.position.lemma_round_trip(mv);
            self.position.lemma_sound_after(mv);
            let next = self.made(mv);
            next.lemma_walk_restores((depth - 1) as nat);
            self.lemma_made_undone(mv);
        }
    }

    /// From a position that is sound for both sides a walk counts the leaves
    /// of the move tree below the position.
    pub proof fn lemma_walk_is_tree(self, depth: nat)
        requires
            self.position.fully_sound(),
        ensures
            self.walk(depth).0 == self.position.tree(self.last_move(), depth),
        decreases depth, 1nat, 0nat,
    {
        if depth > 0 {
            let moves = self.position.legal_moves();
            assert forall|i: int| 0 <= i < moves.len() implies self.position.proper(
                #[trigger] moves[i],
            ) by {
                self.position.lemma_legal_moves_proper(i);
            }
            self.lemma_walk_moves_is_tree(moves, depth);
        }
    }

    /// The same for the walks below moves that are what their tags say.
    pub proof fn lemma_walk_moves_is_tree(self, moves: Seq<Move>, depth: nat)
        requires
            self.position.fully_sound(),
            forall|i: int| 0 <= i < moves.len() ==> self.position.proper(#[trigger] moves[i]),
        ensures
            self.walk_moves(moves, depth).0 == self.position.tree_below(moves, depth),
        decreases depth, 0nat, moves.len(),
    {
        if depth > 0 && moves.len() > 0 {
            let front = moves.drop_last();
            let mv = moves.last();
            assert forall|i: int| 0 <= i < front.len() implies self.position.proper(
                #[trigger] front[i],
            ) by {
                assert(front[i] == moves[i]);
            }
            self.lemma_walk_moves_is_tree(front, depth);
            self.lemma_walk_moves_restores(front, depth);
            assert(self.position.proper(moves[moves.len() - 1]));
            self.position.lemma_round_trip(mv);
            self.position.lemma_sound_after(mv);
            let next = self.made(mv);
            assert(next.last_move() == Some(mv));
            next.lemma_walk_is_tree((depth - 1) as nat);
        }
    }

    /// A walk of depth 0 counts the leaf; a deeper walk is the walks below the
    /// legal moves; the walks below no move count nothing.
    pub proof fn lemma_walk_unfold(self, depth: nat)
        ensures
            self.walk(0) == (self.leaf(), self),
            depth > 0 ==> self.walk(depth) == self.walk_moves(self.position.legal_moves(), depth),
            self.walk_moves(Seq::empty(), depth) == (Tally::zero(), self),
    {
    }

    /// The walks of depth 1 below the given moves count one node for each move.
    pub proof fn lemma_walk_moves_one(self, moves: Seq<Move>)
        ensures
            self.walk_moves(moves, 1).0.nodes == moves.len(),
        decreases moves.len(),
    {
        if moves.len() > 0 {
            self.lemma_walk_moves_one(moves.drop_last());
            let (counted, game) = self.walk_moves(moves.drop_last(), 1);
            let next = game.made(moves.last());
            assert(next.walk(0).0.nodes == 1);
        }
    }

    /// A walk of depth 1 counts as many nodes as the position has legal moves.
    pub proof fn lemma_walk_one(self)
        ensures
            self.walk(1).0.nodes == self.position.legal_moves().len(),
    {
        self.lemma_walk_moves_one(self.position.legal_moves());
    }

    /// A walk of the given depth counts at most `walk_limit(depth)` nodes.
    pub proof fn lemma_walk_limit(self, depth: nat)
        ensures
            self.walk(depth).0.nodes <= walk_limit(depth),
        decreases depth, 1nat, 0nat,
    {
        if depth > 0 {
            let moves = self.position.legal_moves();
            self.position.lemma_legal_moves_len(
                self.position.check_state(),
                self.position.pin_state(),
            );
            self.lemma_walk_moves_limit(moves, depth);
            assert(moves.len() * walk_limit((depth - 1) as nat) <= most_moves() * walk_limit(
                (depth - 1) as nat,
            )) by (nonlinear_arith)
                requires
                    moves.len() <= most_moves(),
            ;
        }
    }

    /// The walks below the given moves count at most `walk_limit(depth - 1)`
    /// nodes for each move.
    pub proof fn lemma_walk_moves_limit(self, moves: Seq<Move>, depth: nat)
        requires
            depth > 0,
        ensures
            self.walk_moves(moves, depth).0.nodes <= moves.len() * walk_limit((depth - 1) as nat),
        decreases depth, 0nat, moves.len(),
    {
        let limit = walk_limit((depth - 1) as nat);
        if moves.len() > 0 {
            let (counted, game) = self.walk_moves(moves.drop_last(), depth);
            self.lemma_walk_moves_limit(moves.drop_last(), depth);
            game.made(moves.last()).lemma_walk_limit((depth - 1) as nat);
            assert((moves.len() - 1) * limit + limit == moves.len() * limit) by (nonlinear_arith);
        } else {
            assert(0 * limit == 0) by (nonlinear_arith);
        }
    }

    /// A walk of depth 4 or less counts no more nodes than a counter holds.
    pub proof fn lemma_walk_fits(self, depth: nat)
        requires
            depth <= 4,
        ensures
            self.walk(depth).0.nodes <= u64::MAX,
    {
        self.lemma_walk_limit(depth);
        reveal_with_fuel(walk_limit, 5);
        assert(walk_limit(depth) <= walk_limit(4)) by {
            assert(walk_limit(0) == 1);
            assert(walk_limit(1) == 24578);
            assert(walk_limit(2) == 24578 * 24578);
            assert(walk_limit(3) == 24578 * 24578 * 24578);
            assert(walk_limit(4) == 24578 * 24578 * 24578 * 24578);
        }
    }

    /// A walk leaves room on the clocks where there was room before.
    pub proof fn lemma_clocks(self, ended: Game, depth: nat)
        requires
            self.leads_to(ended),
            self.clocks_leave(depth),
        ensures
            ended.clocks_leave(depth),
    {
        assert forall|k: int| 0 <= k < ended.states.len() implies (
        #[trigger] ended.states[k]).halfmove_clock + depth <= u8::MAX by {
            assert(ended.states[k] == self.states.take(ended.states.len() as int)[k]);
        }
    }

    /// What one more move adds to the walks below the first `i` of the moves,
    /// and that the walk below that move can be counted where the whole walk can.
    pub proof fn lemma_walk_step(self, moves: Seq<Move>, i: int, depth: nat)
        requires
            depth > 0,
            0 <= i < moves.len(),
            self.balanced(),
            self.clocks_leave(depth),
            self.walk_moves(moves, depth).0.nodes <= u64::MAX,
        ensures
            ({
                let (counted, game) = self.walk_moves(moves.take(i), depth);
                let (below, ended) = game.made(moves[i]).walk((depth - 1) as nat);
                &&& game.clocks_leave(depth)
                &&& game.made(moves[i]).clocks_leave((depth - 1) as nat)
                &&& below.nodes <= u64::MAX
                &&& self.walk_moves(moves.take(i + 1), depth) == (
                    counted.plus(below),
                    ended.undone(),
                )
                &&& counted.plus(below).nodes <= u64::MAX
                &&& counted.plus(below).within_nodes()
                &&& self.leads_to(ended.undone())
            }),
    {
        let (counted, game) = self.walk_moves(moves.take(i), depth);
        assert(moves.take(i + 1).drop_last() =~= moves.take(i));
        assert(moves.take(i + 1).last() == moves[i]);
        self.lemma_walk_moves_grows(moves, i + 1, depth);
        self.lemma_walk_moves(moves.take(i + 1), depth);
        self.lemma_walk_moves(moves.take(i), depth);
        self.lemma_clocks(game, depth);
        let next = game.made(moves[i]);
        reveal(Position::after);
        assert(next.clocks_leave((depth - 1) as nat)) by {
            if !game.position.refuses(moves[i]) {
                assert forall|k: int| 0 <= k < next.states.len() implies (
                #[trigger] next.states[k]).halfmove_clock + (depth - 1) <= u8::MAX by {
                    if k < game.states.len() {
                        assert(next.states[k] == game.states[k]);
                    }
                }
            }
        }
    }

    /// The walks below some of the moves count no more nodes than the walks
    /// below all of them.
    pub proof fn lemma_walk_moves_grows(self, moves: Seq<Move>, k: int, depth: nat)
        requires
            0 <= k <= moves.len(),
        ensures
            self.walk_moves(moves.take(k), depth).0.nodes <= self.walk_moves(moves, depth).0.nodes,
        decreases moves.len() - k,
    {
        if k < moves.len() {
            self.lemma_walk_moves_grows(moves, k + 1, depth);
            assert(moves.take(k + 1).drop_last() =~= moves.take(k));
        } else {
            assert(moves.take(k) =~= moves);
        }
    }
}

impl Board {
    /// What the leaf that the board stands on counts.
    fn leaf(&self) -> (r: PerftResult)
        requires
            self.wf(),
        ensures
            r.tally() == self.game().leaf(),
    {
        proof {
            reveal(Board::analyzed);
        }
        let len = self.move_stack.len();
        if len == 0 {
            PerftResult {
                nodes: 1,
                captures: 0,
                en_passants: 0,
                castles: 0,
                promotions: 0,
                checks: 0,
                checkmates: 0,
            }
        } else {
            let mv = self.move_stack[len - 1].inner_move;
            PerftResult {
                nodes: 1,
                captures: if mv.is_capture() {
                    1
                } else {
                    0
                },
                en_passants: if mv.is_en_passant() {
                    1
                } else {
                    0
                },
                castles: if mv.is_castling() {
                    1
                } else {
                    0
                },
                promotions: if mv.is_promotion() {
                    1
                } else {
                    0
                },
                checks: if self.is_check() {
                    1
                } else {
                    0
                },
                checkmates: if self.is_checkmate() {
                    1
                } else {
                    0
                },
            }
        }
    }
}

/// Makes the move, walks one level less deep, and takes the move back.
fn perft_below(board: &mut Board, mv: Move, depth: usize) -> (below: PerftResult)
    requires
        depth > 0,
        old(board).wf(),
        old(board).state.halfmove_clock < u8::MAX,
        old(board).game().made(mv).clocks_leave((depth - 1) as nat),
        old(board).game().made(mv).walk((depth - 1) as nat).0.nodes <= u64::MAX,
    ensures
        final(board).wf(),
        final(board).standard_bitboards == old(board).standard_bitboards,
        below.tally() == old(board).game().made(mv).walk((depth - 1) as nat).0,
        final(board).game() == old(board).game().made(mv).walk((depth - 1) as nat).1.undone(),
    decreases depth, 0nat,
{
    proof {
        reveal(Position::after);
    }
    board.make_move(mv);
    assert(board.game() == old(board).game().made(mv));
    let below = perft(board, depth - 1);
    board.undo_move();
    below
}

/// Walks the move tree below the board to the given depth and counts its
/// leaves: each legal move is made, the walk goes on one level deeper, and the
/// move is taken back.
pub fn perft(board: &mut Board, depth: usize) -> (nodes: PerftResult)
    requires
        old(board).wf(),
        old(board).game().clocks_leave(depth as nat),
        old(board).game().walk(depth as nat).0.nodes <= u64::MAX,
    ensures
        final(board).wf(),
        final(board).standard_bitboards == old(board).standard_bitboards,
        nodes.tally() == old(board).game().walk(depth as nat).0,
        final(board).game() == old(board).game().walk(depth as nat).1,
        old(board).position().fully_sound() ==> final(board).game() == old(board).game()
            && nodes.tally() == old(board).position().tree(
            old(board).game().last_move(),
            depth as nat,
        ),
    decreases depth, 1nat,
{
    let ghost start = board.game();
    proof {
        start.lemma_walk_unfold(depth as nat);
        if start.position.fully_sound() {
            start.lemma_walk_restores(depth as nat);
            start.lemma_walk_is_tree(depth as nat);
        }
    }
    if depth == 0 {
        return board.leaf();
    }
    proof {
        reveal(Board::analyzed);
    }
    let moves = board.legal_moves.clone();
    let mut nodes = PerftResult::default();
    let mut i: usize = 0;
    assert(moves@.take(0) =~= Seq::<Move>::empty());
    while i < moves.len()
        invariant
            depth > 0,
            i <= moves@.len(),
            start.balanced(),
            start.clocks_leave(depth as nat),
            start.walk_moves(moves@, depth as nat).0.nodes <= u64::MAX,
            board.wf(),
            board.standard_bitboards == old(board).standard_bitboards,
            nodes.tally() == start.walk_moves(moves@.take(i as int), depth as nat).0,
            nodes.tally().within_nodes(),
            board.game() == start.walk_moves(moves@.take(i as int), depth as nat).1,
        decreases moves@.len() - i,
    {
        let mv = moves.get(i);
        proof {
            start.lemma_walk_step(moves@, i as int, depth as nat);
        }
        let below = perft_below(board, mv, depth);
        nodes = nodes + below;
        i = i + 1;
    }
    assert(moves@.take(i as int) =~= moves@);
    nodes
}

} // verus!
