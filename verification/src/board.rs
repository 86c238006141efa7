use vstd::array::array_fill_for_copy_types;
use vstd::prelude::*;
use crate::bits::bit;
use crate::bits::single;
use crate::board::movegen::StandardBitboards;
use crate::types::bitboard::Bitboard;
use crate::types::castling::Castling;
use crate::types::color::Color;
use crate::types::movelist::MoveList;
use crate::types::moves::FullMove;
use crate::types::piece::Piece;
use crate::types::square::Square;

pub mod analysis;
pub mod geometry;
pub mod keeping;
pub mod legal;
pub mod lines;
pub mod makemove;
pub mod moveboards;
pub mod movegen;
pub mod parser;
pub mod reversal;

verus! {

/// The part of a position that is neither a piece nor the side to move.
#[derive(Copy, Clone, PartialEq, Eq, Structural, Debug)]
pub struct BoardState {
    /// The square that a pawn may capture into en passant, `Null` if none.
    pub en_passant: Square,
    /// The number of half-moves since the last capture or pawn move.
    pub halfmove_clock: u8,
    pub castling: Castling,
    pub fullmove_number: u16,
    /// The piece that the last move captured, `Empty` if none.
    pub captured_piece: Piece,
}

/// One check: the square of the piece that gives it, and the squares on
/// which a piece other than the king answers it, by capture or by blocking.
#[derive(Copy, Clone, PartialEq, Eq, Structural, Debug)]
pub struct Check {
    pub checking_piece: Square,
    pub block_space: Bitboard,
}

/// What the other side attacks, and up to two checks on the king of the side
/// to move.
#[derive(Copy, Clone, PartialEq, Eq, Structural, Debug)]
pub struct CheckState {
    pub check_space: Bitboard,
    pub first: Check,
    pub second: Check,
}

/// The pieces, the side to move and the state: what a position is, apart
/// from what is derived from it.
pub struct Position {
    pub side: Color,
    pub colors: Seq<Bitboard>,
    pub pieces: Seq<Bitboard>,
    pub mailbox: Seq<Piece>,
    pub state: BoardState,
}

/// A position with its history, the tables and what is derived from it.
pub struct Board {
    pub side_to_move: Color,
    pub state: BoardState,
    /// The squares that each side occupies.
    pub colors: [Bitboard; 2],
    /// The squares that each kind of piece occupies.
    pub pieces: [Bitboard; 6],
    /// The kind of piece on each square.
    pub mailbox: [Piece; 64],
    pub standard_bitboards: StandardBitboards,
    pub checking_state: CheckState,
    /// For each square, the squares to which a piece of the side to move that
    /// stands there may go without exposing its king.
    pub pinning_state: [Bitboard; 64],
    pub legal_moves: MoveList,
    /// The state before each move that was made and not taken back.
    pub state_stack: Vec<BoardState>,
    /// The moves that were made and not taken back.
    pub move_stack: Vec<FullMove>,
}

/// The record of the squares of a board without a piece.
fn empty_mailbox() -> (mailbox: [Piece; 64])
    ensures
        forall|i: int| 0 <= i < 64 ==> mailbox@[i] == Piece::Empty,
{
    array_fill_for_copy_types::<Piece, 64>(Piece::Empty)
}

/// The same set for each square.
fn uniform_sets(set: Bitboard) -> (sets: [Bitboard; 64])
    ensures
        forall|i: int| 0 <= i < 64 ==> sets@[i] == set,
{
    array_fill_for_copy_types::<Bitboard, 64>(set)
}

impl Default for BoardState {
    fn default() -> (s: BoardState)
        ensures
            s == BoardState::initial(),
    {
        BoardState {
            en_passant: Square::Null,
            halfmove_clock: 0,
            castling: Castling { raw: 0 },
            fullmove_number: 0,
            captured_piece: Piece::Empty,
        }
    }
}

impl BoardState {
    /// The state of an empty board: no rights, no en passant square, all counts 0.
    pub open spec fn initial() -> BoardState {
        BoardState {
            en_passant: Square::Null,
            halfmove_clock: 0,
            castling: Castling { raw: 0 },
            fullmove_number: 0,
            captured_piece: Piece::Empty,
        }
    }
}

impl CheckState {
    /// Nothing attacked and no check.
    pub open spec fn empty() -> CheckState {
        CheckState {
            check_space: Bitboard(0),
            first: Check { checking_piece: Square::Null, block_space: Bitboard(0) },
            second: Check { checking_piece: Square::Null, block_space: Bitboard(0) },
        }
    }
}

impl Default for CheckState {
    fn default() -> (s: CheckState)
        ensures
            s == CheckState::empty(),
    {
        CheckState {
            check_space: Bitboard(0),
            first: Check { checking_piece: Square::Null, block_space: Bitboard(0) },
            second: Check { checking_piece: Square::Null, block_space: Bitboard(0) },
        }
    }
}

impl Position {
    /// Whether the position has two colour sets, six piece sets and 64 squares.
    pub open spec fn shaped(self) -> bool {
        self.colors.len() == 2 && self.pieces.len() == 6 && self.mailbox.len() == 64
    }

    /// The squares that the side to move occupies.
    pub open spec fn ours(self) -> u64 {
        self.colors[self.side.idx()].0
    }

    /// The squares that the other side occupies.
    pub open spec fn theirs(self) -> u64 {
        self.colors[self.side.other().idx()].0
    }

    /// The squares that any piece occupies.
    pub open spec fn occupancy(self) -> u64 {
        self.ours() | self.theirs()
    }

    /// The squares that hold a piece of the given kind, of either side.
    pub open spec fn of_kind(self, piece: Piece) -> u64 {
        if piece == Piece::Empty {
            0
        } else {
            self.pieces[piece.idx()].0
        }
    }

    /// The squares that hold a piece of the given kind of the side to move.
    pub open spec fn our(self, piece: Piece) -> u64 {
        self.of_kind(piece) & self.ours()
    }

    /// The squares that hold a piece of the given kind of the other side.
    pub open spec fn their(self, piece: Piece) -> u64 {
        self.of_kind(piece) & self.theirs()
    }

    /// The kind of piece on the square of index `s`, `Empty` off the board.
    pub open spec fn piece_at(self, s: int) -> Piece {
        if 0 <= s < 64 {
            self.mailbox[s]
        } else {
            Piece::Empty
        }
    }

    /// The position with a piece put on the square of index `s`.
    pub open spec fn added(self, s: int, color: Color, piece: Piece) -> Position {
        Position {
            colors: self.colors.update(
                color.idx(),
                Bitboard(self.colors[color.idx()].0 | single(s)),
            ),
            pieces: self.pieces.update(
                piece.idx(),
                Bitboard(self.pieces[piece.idx()].0 | single(s)),
            ),
            mailbox: self.mailbox.update(s, piece),
            ..self
        }
    }

    /// The position with a piece taken from the square of index `s`.
    pub open spec fn removed(self, s: int, color: Color, piece: Piece) -> Position {
        Position {
            colors: self.colors.update(
                color.idx(),
                Bitboard(self.colors[color.idx()].0 & !single(s)),
            ),
            pieces: self.pieces.update(
                piece.idx(),
                Bitboard(self.pieces[piece.idx()].0 & !single(s)),
            ),
            mailbox: self.mailbox.update(s, Piece::Empty),
            ..self
        }
    }

    /// Whether the sets and the square-by-square record agree on the square of
    /// index `s`: the kind recorded there is the one set that holds the
    /// square, and exactly one colour holds it when a piece stands there.
    pub open spec fn agrees_at(self, s: int) -> bool {
        &&& forall|p: int| 0 <= p < 6 ==> (bit(self.pieces[p].0, s) <==> self.mailbox[s].idx() == p)
        &&& (self.mailbox[s] != Piece::Empty <==> bit(self.colors[0].0, s) || bit(
            self.colors[1].0,
            s,
        ))
        &&& !(bit(self.colors[0].0, s) && bit(self.colors[1].0, s))
    }

    /// Whether the sets and the square-by-square record agree on every square.
    pub open spec fn consistent(self) -> bool {
        self.shaped() && forall|s: int| 0 <= s < 64 ==> #[trigger] self.agrees_at(s)
    }
}

impl Board {
    /// The position that the board holds.
    pub open spec fn position(&self) -> Position {
        Position {
            side: self.side_to_move,
            colors: self.colors@,
            pieces: self.pieces@,
            mailbox: self.mailbox@,
            state: self.state,
        }
    }

    /// Whether two boards hold the same tables, the same history and the same
    /// derived state: all but the position.
    pub open spec fn same_rest(&self, other: &Board) -> bool {
        &&& self.standard_bitboards == other.standard_bitboards
        &&& self.checking_state == other.checking_state
        &&& self.pinning_state == other.pinning_state
        &&& self.legal_moves == other.legal_moves
        &&& self.state_stack == other.state_stack
        &&& self.move_stack == other.move_stack
    }

    /// The kind of piece on the square, `Empty` for `Null`.
    pub fn piece_on(&self, square: Square) -> (p: Piece)
        ensures
            p == self.position().piece_at(square.idx()),
    {
        let i: usize = square.index();
        if i < 64 {
            self.mailbox[i]
        } else {
            Piece::Empty
        }
    }

    /// Puts a piece on a square: into the set of its kind, into the set of its
    /// colour and into the record of the squares. What is derived from the
    /// position is left as it was.
    pub fn add_piece(&mut self, square: Square, color: Color, piece: Piece)
        requires
            square != Square::Null,
            piece != Piece::Empty,
        ensures
            final(self).position() == old(self).position().added(square.idx(), color, piece),
            final(self).same_rest(old(self)),
    {
        let s: usize = square.index();
        let p: usize = piece.index();
        let c: usize = color.index();
        let mut kind: Bitboard = self.pieces[p];
        kind.set(square);
        self.pieces[p] = kind;
        let mut side: Bitboard = self.colors[c];
        side.set(square);
        self.colors[c] = side;
        self.mailbox[s] = piece;
        proof {
            let expected = old(self).position().added(square.idx(), color, piece);
            assert(self.position().colors =~= expected.colors);
            assert(self.position().pieces =~= expected.pieces);
            assert(self.position().mailbox =~= expected.mailbox);
        }
    }

    /// Takes a piece from a square: out of the set of its kind, out of the set
    /// of its colour and out of the record of the squares.
    pub fn remove_piece(&mut self, square: Square, color: Color, piece: Piece)
        requires
            square != Square::Null,
            piece != Piece::Empty,
        ensures
            final(self).position() == old(self).position().removed(square.idx(), color, piece),
            final(self).same_rest(old(self)),
    {
        let s: usize = square.index();
        let p: usize = piece.index();
        let c: usize = color.index();
        let mut kind: Bitboard = self.pieces[p];
        kind.clear(square);
        self.pieces[p] = kind;
        let mut side: Bitboard = self.colors[c];
        side.clear(square);
        self.colors[c] = side;
        self.mailbox[s] = Piece::Empty;
        proof {
            let expected = old(self).position().removed(square.idx(), color, piece);
            assert(self.position().colors =~= expected.colors);
            assert(self.position().pieces =~= expected.pieces);
            assert(self.position().mailbox =~= expected.mailbox);
        }
    }

    /// The squares that hold a piece of the given kind of the side to move.
    pub fn our(&self, piece: Piece) -> (b: Bitboard)
        ensures
            b.0 == self.position().our(piece),
    {
        let p: usize = piece.index();
        let kind: u64 = if p < 6 {
            self.pieces[p].0
        } else {
            0
        };
        Bitboard(kind & self.colors[self.side_to_move.index()].0)
    }

    /// The squares that hold a piece of the given kind of the other side.
    pub fn their(&self, piece: Piece) -> (b: Bitboard)
        ensures
            b.0 == self.position().their(piece),
    {
        let p: usize = piece.index();
        let kind: u64 = if p < 6 {
            self.pieces[p].0
        } else {
            0
        };
        Bitboard(kind & self.colors[self.side_to_move.opponent().index()].0)
    }
}

impl Board {
    /// Whether what the board holds as derived from its position is what the
    /// position gives: the check state, the pin state and the legal moves.
    #[verifier::opaque]
    pub open spec fn analyzed(&self) -> bool {
        &&& self.checking_state == self.position().check_state()
        &&& self.pinning_state@ == self.position().pin_state()
        &&& self.legal_moves@ == self.position().legal_moves()
    }

    /// Whether the tables are what their names say, the board is analyzed,
    /// and it holds one earlier state for each move of its history.
    pub open spec fn wf(&self) -> bool {
        &&& self.standard_bitboards.wf()
        &&& self.analyzed()
        &&& self.state_stack@.len() == self.move_stack@.len()
    }

    /// Two analyzed boards with the same position hold the same check state,
    /// the same pin state and the same legal moves.
    pub proof fn lemma_same_position(&self, other: &Board)
        requires
            self.analyzed(),
            other.analyzed(),
            self.position() == other.position(),
        ensures
            self.checking_state == other.checking_state,
            self.pinning_state@ == other.pinning_state@,
            self.legal_moves@ == other.legal_moves@,
    {
        reveal(Board::analyzed);
    }

    /// Brings what is derived from the position up to date: the check state,
    /// the pin state and the legal moves. To be run when a board is made and
    /// after each change of its pieces.
    pub fn analyze_board(&mut self)
        requires
            old(self).standard_bitboards.wf(),
        ensures
            final(self).analyzed(),
            final(self).position() == old(self).position(),
            final(self).standard_bitboards == old(self).standard_bitboards,
            final(self).state_stack == old(self).state_stack,
            final(self).move_stack == old(self).move_stack,
    {
        self.checking_state = self.calculate_check_state();
        self.pinning_state = self.calculate_pin_state();
        self.legal_moves = self.generate_legal_moves();
        proof {
            reveal(Board::analyzed);
        }
    }

    /// Whether the side to move is checkmated.
    pub open spec fn checkmated(&self) -> bool {
        self.legal_moves@.len() == 0 && self.checking_state.first.checking_piece != Square::Null
    }

    /// Whether the side to move is stalemated.
    pub open spec fn stalemated(&self) -> bool {
        self.legal_moves@.len() == 0 && self.checking_state.first.checking_piece == Square::Null
    }

    /// A side without a legal move is checkmated if a check is recorded and
    /// stalemated if none is, never both; a side with a legal move is neither.
    pub proof fn lemma_checkmate_or_stalemate(&self)
        ensures
            self.legal_moves@.len() == 0 ==> (self.checkmated() <==> !self.stalemated()),
            self.legal_moves@.len() == 0 && self.checking_state.first.checking_piece
                != Square::Null ==> self.checkmated() && !self.stalemated(),
            self.legal_moves@.len() == 0 && self.checking_state.first.checking_piece
                == Square::Null ==> self.stalemated() && !self.checkmated(),
            self.legal_moves@.len() > 0 ==> !self.checkmated() && !self.stalemated(),
    {
    }

    /// Whether the king of the side to move is in check.
    pub fn is_check(&self) -> (r: bool)
        ensures
            r == (self.checking_state.first.checking_piece != Square::Null),
    {
        self.checking_state.first.checking_piece.index() != 64
    }

    /// Whether the side to move is checkmated: it has no legal move and a
    /// check is recorded.
    pub fn is_checkmate(&self) -> (r: bool)
        ensures
            r == self.checkmated(),
    {
        self.legal_moves.len() == 0 && self.checking_state.first.checking_piece.index() != 64
    }

    /// Whether the position is a stalemate: the side to move has no legal
    /// move and no check is recorded.
    pub fn is_stalemate(&self) -> (r: bool)
        ensures
            r == self.stalemated(),
    {
        self.legal_moves.len() == 0 && self.checking_state.first.checking_piece.index() == 64
    }
}

impl Position {
    /// The board without a piece, white to move, in the initial state.
    pub open spec fn vacant() -> Position {
        Position {
            side: Color::White,
            colors: Seq::new(2, |i: int| Bitboard(0)),
            pieces: Seq::new(6, |i: int| Bitboard(0)),
            mailbox: Seq::new(64, |i: int| Piece::Empty),
            state: BoardState::initial(),
        }
    }
}

impl Clone for Board {
    /// A board of its own with the same position, the same history and the
    /// same derived state.
    fn clone(&self) -> (b: Board)
        ensures
            b.position() == self.position(),
            b.standard_bitboards == self.standard_bitboards,
            b.checking_state == self.checking_state,
            b.pinning_state == self.pinning_state,
            b.legal_moves@ == self.legal_moves@,
            b.state_stack@ == self.state_stack@,
            b.move_stack@ == self.move_stack@,
            self.wf() ==> b.wf(),
    {
        proof {
            reveal(Board::analyzed);
        }
        Board {
            side_to_move: self.side_to_move,
            state: self.state,
            colors: self.colors,
            pieces: self.pieces,
            mailbox: self.mailbox,
            standard_bitboards: self.standard_bitboards,
            checking_state: self.checking_state,
            pinning_state: self.pinning_state,
            legal_moves: self.legal_moves.clone(),
            state_stack: self.state_stack.clone(),
            move_stack: self.move_stack.clone(),
        }
    }
}

impl Default for Board {
    /// The board without a piece, white to move, with no history.
    fn default() -> (b: Board)
        ensures
            b.wf(),
            b.position() == Position::vacant(),
            b.state_stack@.len() == 0,
    {
        let z = Bitboard(0);
        let pieces: [Bitboard; 6] = [z, z, z, z, z, z];
        let colors: [Bitboard; 2] = [z, z];
        let mailbox: [Piece; 64] = empty_mailbox();
        let mut b = Board {
            side_to_move: Color::White,
            pieces,
            colors,
            state: BoardState::default(),
            mailbox,
            standard_bitboards: StandardBitboards::new(),
            checking_state: CheckState::default(),
            pinning_state: uniform_sets(Bitboard::universal()),
            legal_moves: MoveList::default(),
            state_stack: Vec::new(),
            move_stack: Vec::new(),
        };
        proof {
            assert(b.position().colors =~= Position::vacant().colors);
            assert(b.position().pieces =~= Position::vacant().pieces);
            assert(b.position().mailbox =~= Position::vacant().mailbox);
        }
        b.analyze_board();
        b
    }
}

} // verus!
