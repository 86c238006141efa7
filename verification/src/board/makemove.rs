use vstd::prelude::*;
use crate::bits::lowest;
use crate::board::movegen::between_mask;
use crate::board::movegen::on_board;
use crate::board::Board;
use crate::board::BoardState;
use crate::board::Position;
use crate::types::color::Color;
use crate::types::moves::FullMove;
use crate::types::moves::Move;
use crate::types::moves::MoveType;
use crate::types::piece::Piece;
use crate::types::square::Square;

verus! {

/// The squares on which the rook starts and ends when the king castles to
/// the square of index `king_target`, if that is a square to which a king
/// castles.
pub open spec fn rook_squares(king_target: int) -> Option<(int, int)> {
    if king_target == 6 {
        Some((7, 5))
    } else if king_target == 2 {
        Some((0, 3))
    } else if king_target == 62 {
        Some((63, 61))
    } else if king_target == 58 {
        Some((56, 59))
    } else {
        None
    }
}

/// The index of the square behind `target` as seen by a pawn of the given
/// colour: where the pawn stands that is captured en passant on `target`.
pub open spec fn square_behind(color: Color, target: int) -> int {
    if color == Color::White {
        target - 8
    } else {
        target + 8
    }
}

/// The state after a move of `piece` that captures `captured`: the clock
/// starts again on a capture or a pawn move and counts on otherwise, the en
/// passant square is set by a double pawn push alone, to the square that the
/// pawn crossed, and the castling rights are those that the two squares of
/// the move leave.
pub open spec fn next_state(
    state: BoardState,
    mv: Move,
    piece: Piece,
    captured: Piece,
) -> BoardState {
    BoardState {
        en_passant: if mv.tag() == 1 {
            Square::at(lowest(between_mask(mv.start_idx(), mv.target_idx())))
        } else {
            Square::Null
        },
        halfmove_clock: if piece == Piece::Pawn || mv.captures() {
            0
        } else {
            (state.halfmove_clock + 1) as u8
        },
        castling: state.castling.updated(mv.start_idx(), mv.target_idx()),
        fullmove_number: state.fullmove_number,
        captured_piece: captured,
    }
}

impl Position {
    /// Whether the move is refused: no piece stands on its start square, or it
    /// goes nowhere.
    pub open spec fn refuses(self, mv: Move) -> bool {
        self.piece_at(mv.start_idx()) == Piece::Empty || mv.start_idx() == mv.target_idx()
    }

    /// The index of the square on which the move captures: the target square,
    /// or for an en passant capture the square behind it.
    pub open spec fn capture_square(self, mv: Move) -> int {
        if mv.tag() == 5 {
            square_behind(self.side, mv.target_idx())
        } else {
            mv.target_idx()
        }
    }

    /// The piece that the move captures, `Empty` if none.
    pub open spec fn captured_by(self, mv: Move) -> Piece {
        if mv.captures() {
            self.piece_at(self.capture_square(mv))
        } else {
            Piece::Empty
        }
    }

    /// The piece that the move puts on its target square: the promoted piece,
    /// or the piece that moves.
    pub open spec fn placed_by(self, mv: Move) -> Piece {
        if mv.promotes() {
            mv.kind_of().promoted()
        } else {
            self.piece_at(mv.start_idx())
        }
    }

    /// The index of the square from which a castling move takes the rook.
    pub open spec fn rook_from(mv: Move) -> int {
        if mv.tag() == 2 {
            mv.start_idx() + 3
        } else {
            mv.start_idx() - 4
        }
    }

    /// The index of the square on which a castling move puts the rook: the
    /// lowest square between the king's start and target.
    pub open spec fn rook_to(mv: Move) -> int {
        lowest(between_mask(mv.start_idx(), mv.target_idx()))
    }

    /// The position without the piece that the move captures.
    pub open spec fn without_captured(self, mv: Move) -> Position {
        if self.captured_by(mv) != Piece::Empty {
            self.removed(self.capture_square(mv), self.side.other(), self.captured_by(mv))
        } else {
            self
        }
    }

    /// The position with the rook of a castling move taken from its corner.
    pub open spec fn without_rook(self, mv: Move) -> Position {
        if mv.castles() && on_board(Self::rook_from(mv)) {
            self.removed(Self::rook_from(mv), self.side, Piece::Rook)
        } else {
            self
        }
    }

    /// The position with the rook of a castling move put next to the king.
    pub open spec fn with_rook(self, mv: Move) -> Position {
        if mv.castles() && on_board(Self::rook_to(mv)) {
            self.added(Self::rook_to(mv), self.side, Piece::Rook)
        } else {
            self
        }
    }

    /// The state after the move.
    pub open spec fn state_after(self, mv: Move) -> BoardState {
        next_state(self.state, mv, self.piece_at(mv.start_idx()), self.captured_by(mv))
    }

    /// The pieces after the move, the side to move and the state unchanged.
    pub open spec fn pieces_after(self, mv: Move) -> Position {
        self.without_captured(mv).removed(
            mv.start_idx(),
            self.side,
            self.piece_at(mv.start_idx()),
        ).added(mv.target_idx(), self.side, self.placed_by(mv)).without_rook(mv).with_rook(mv)
    }

    /// The position after the move. A refused move changes nothing.
    #[verifier::opaque]
    pub open spec fn after(self, mv: Move) -> Position {
        if self.refuses(mv) {
            self
        } else {
            Position {
                side: self.side.other(),
                state: self.state_after(mv),
                ..self.pieces_after(mv)
            }
        }
    }

    /// The record that the move leaves in the history.
    pub open spec fn record_of(self, mv: Move) -> FullMove {
        FullMove {
            piece: self.piece_at(mv.start_idx()),
            captured: self.captured_by(mv),
            inner_move: mv,
        }
    }

    /// The piece that a recorded move has put on its target square.
    pub open spec fn placed_in(fm: FullMove) -> Piece {
        if fm.inner_move.promotes() {
            fm.inner_move.kind_of().promoted()
        } else {
            fm.piece
        }
    }

    /// The position without the piece that the recorded move has put on its
    /// target square. The side to move is the one that made the move.
    pub open spec fn without_placed(self, fm: FullMove) -> Position {
        if Self::placed_in(fm) != Piece::Empty {
            self.removed(fm.inner_move.target_idx(), self.side, Self::placed_in(fm))
        } else {
            self
        }
    }

    /// The position with the piece that the recorded move captured put back.
    pub open spec fn with_captured(self, fm: FullMove) -> Position {
        if fm.inner_move.captures() && fm.captured != Piece::Empty && on_board(
            self.capture_square(fm.inner_move),
        ) {
            self.added(self.capture_square(fm.inner_move), self.side.other(), fm.captured)
        } else {
            self
        }
    }

    /// The position with the rook of a recorded castling move put back on its corner.
    pub open spec fn with_rook_back(self, fm: FullMove) -> Position {
        if fm.inner_move.castles() {
            match rook_squares(fm.inner_move.target_idx()) {
                Some((rook_start, rook_end)) => self.removed(
                    rook_end,
                    self.side,
                    Piece::Rook,
                ).added(rook_start, self.side, Piece::Rook),
                None => self,
            }
        } else {
            self
        }
    }

    /// The position with the piece that made the recorded move put back on
    /// its start square.
    pub open spec fn with_mover(self, fm: FullMove) -> Position {
        if fm.piece != Piece::Empty {
            self.added(fm.inner_move.start_idx(), self.side, fm.piece)
        } else {
            self
        }
    }

    /// The pieces before the recorded move was made. The side to move is the
    /// one that made the move.
    pub open spec fn pieces_before(self, fm: FullMove) -> Position {
        self.without_placed(fm).with_captured(fm).with_rook_back(fm).with_mover(fm)
    }

    /// The position before the recorded move was made, given the state that
    /// held then.
    #[verifier::opaque]
    pub open spec fn before(self, fm: FullMove, prior: BoardState) -> Position {
        Position {
            state: prior,
            ..(Position { side: self.side.other(), ..self }).pieces_before(fm)
        }
    }
}

/// The squares on which the rook starts and ends when the king castles to
/// the given square.
fn get_rook_move_for_king_target(king_target: Square) -> (r: Option<(Square, Square)>)
    ensures
        match rook_squares(king_target.idx()) {
            Some((a, b)) => r matches Some((x, y)) && x.idx() == a && y.idx() == b,
            None => r is None,
        },
{
    reveal(Square::idx);
    match king_target {
        Square::G1 => Some((Square::H1, Square::F1)),
        Square::C1 => Some((Square::A1, Square::D1)),
        Square::G8 => Some((Square::H8, Square::F8)),
        Square::C8 => Some((Square::A8, Square::D8)),
        _ => None,
    }
}

impl Board {
    /// Takes the piece that the move captures off the board and returns it.
    fn take_captured(&mut self, mv: Move) -> (captured_piece: Piece)
        ensures
            captured_piece == old(self).position().captured_by(mv),
            final(self).position() == old(self).position().without_captured(mv),
            final(self).same_rest(old(self)),
    {
        let target = mv.target();
        let side = self.side_to_move;
        let mut captured_piece = Piece::Empty;
        proof {
            Move::lemma_decode(mv);
            Square::lemma_idx_injective(target, Square::Null);
        }
        if mv.is_capture() {
            let capture_square = if mv.is_en_passant() {
                match side {
                    Color::White => target.shift(-8),
                    Color::Black => target.shift(8),
                }
            } else {
                target
            };
            captured_piece = self.piece_on(capture_square);
            if captured_piece != Piece::Empty {
                proof {
                    Square::lemma_idx_injective(capture_square, Square::Null);
                }
                self.remove_piece(capture_square, side.opponent(), captured_piece);
            }
        }
        captured_piece
    }

    /// Moves the rook of a castling move from its corner to the king's side.
    fn move_rook(&mut self, mv: Move)
        requires
            old(self).standard_bitboards.wf(),
        ensures
            final(self).position() == old(self).position().without_rook(mv).with_rook(mv),
            final(self).same_rest(old(self)),
    {
        let start = mv.start();
        let target = mv.target();
        let side = self.side_to_move;
        proof {
            Move::lemma_decode(mv);
            Square::lemma_idx_injective(start, Square::Null);
        }
        if mv.is_castling() {
            let rook_square = match mv.kind() {
                MoveType::KingsideCastle => start.shift(3),
                MoveType::QueensideCastle => start.shift(-4),
                _ => Square::Null,
            };
            if rook_square.index() < 64 {
                self.remove_piece(rook_square, side, Piece::Rook);
            }
            let between_square = self.standard_bitboards.between_of(start, target).lsb();
            if between_square.index() < 64 {
                self.add_piece(between_square, side, Piece::Rook);
            }
        }
    }

    /// The state after a move of `piece` that captures `captured_piece`.
    fn next_state(&self, mv: Move, piece: Piece, captured_piece: Piece) -> (state: BoardState)
        requires
            self.standard_bitboards.wf(),
            self.state.halfmove_clock < u8::MAX,
        ensures
            state == next_state(self.state, mv, piece, captured_piece),
    {
        let start = mv.start();
        let target = mv.target();
        let mut state = self.state;
        state.captured_piece = captured_piece;
        if piece == Piece::Pawn || mv.is_capture() {
            state.halfmove_clock = 0;
        } else {
            state.halfmove_clock = state.halfmove_clock + 1;
        }
        if mv.is_double_pawn_push() {
            state.en_passant = self.standard_bitboards.between_of(start, target).lsb();
        } else {
            state.en_passant = Square::Null;
        }
        state.castling.update(start, target);
        state
    }

    /// Makes a move: takes the captured piece off, moves the piece, or puts
    /// the promoted piece, moves the rook of a castling move, brings the state
    /// up to date, hands the move to the other side, records the move and the
    /// earlier state, and analyzes the new position. A move that starts on an
    /// empty square or goes nowhere changes nothing.
    #[verifier::rlimit(30)]
    pub fn make_move(&mut self, mv: Move)
        requires
            old(self).wf(),
            old(self).state.halfmove_clock < u8::MAX,
        ensures
            final(self).wf(),
            final(self).position() == old(self).position().after(mv),
            final(self).standard_bitboards == old(self).standard_bitboards,
            old(self).position().refuses(mv) ==> final(self).state_stack@ == old(self).state_stack@
                && final(self).move_stack@ == old(self).move_stack@,
            !old(self).position().refuses(mv) ==> final(self).state_stack@ == old(
                self,
            ).state_stack@.push(old(self).state) && final(self).move_stack@ == old(
                self,
            ).move_stack@.push(old(self).position().record_of(mv)),
    {
        let ghost pos = self.position();
        let start = mv.start();
        let target = mv.target();
        let piece = self.piece_on(start);
        proof {
            reveal(Position::after);
            Move::lemma_decode(mv);
            Square::lemma_idx_injective(start, Square::Null);
            Square::lemma_idx_injective(target, Square::Null);
        }
        if piece == Piece::Empty {
            return ;
        }
        if start.index() == target.index() {
            return ;
        }
        let side = self.side_to_move;
        let prior = self.state;
        let captured_piece = self.take_captured(mv);
        self.remove_piece(start, side, piece);
        let placed_piece: Piece = if mv.is_promotion() {
            mv.promo_piece()
        } else {
            piece
        };
        self.add_piece(target, side, placed_piece);
        self.move_rook(mv);
        assert(self.position() == pos.pieces_after(mv));
        let full_move = FullMove::new(piece, captured_piece, mv);
        self.state = self.next_state(mv, piece, captured_piece);
        self.side_to_move = side.opponent();
        self.state_stack.push(prior);
        self.move_stack.push(full_move);
        assert(self.position() == pos.after(mv));
        self.analyze_board()
    }

    /// Puts the piece that the recorded move captured back on the board.
    fn restore_captured(&mut self, fm: FullMove)
        ensures
            final(self).position() == old(self).position().with_captured(fm),
            final(self).same_rest(old(self)),
    {
        let target = fm.inner_move.target();
        proof {
            Move::lemma_decode(fm.inner_move);
            Square::lemma_idx_injective(target, Square::Null);
        }
        if fm.inner_move.is_capture() {
            let captured_piece = fm.captured;
            let captured_piece_square = if fm.inner_move.is_en_passant() {
                match self.side_to_move {
                    Color::White => target.shift(-8),
                    Color::Black => target.shift(8),
                }
            } else {
                target
            };
            if captured_piece != Piece::Empty && captured_piece_square.index() < 64 {
                self.add_piece(
                    captured_piece_square,
                    self.side_to_move.opponent(),
                    captured_piece,
                );
            }
        }
    }

    /// Puts the rook of a recorded castling move back on its corner.
    fn restore_rook(&mut self, fm: FullMove)
        ensures
            final(self).position() == old(self).position().with_rook_back(fm),
            final(self).same_rest(old(self)),
    {
        if fm.inner_move.is_castling() {
            match get_rook_move_for_king_target(fm.inner_move.target()) {
                Some((rook_start, rook_end)) => {
                    proof {
                        Square::lemma_idx_injective(rook_start, Square::Null);
                        Square::lemma_idx_injective(rook_end, Square::Null);
                    }
                    self.remove_piece(rook_end, self.side_to_move, Piece::Rook);
                    self.add_piece(rook_start, self.side_to_move, Piece::Rook);
                },
                None => {},
            }
        }
    }

    /// Takes the last move back: hands the move back to the side that made
    /// it, takes the piece off the target square, puts the captured piece
    /// back, moves the rook of a castling move back, puts the moved piece on
    /// its start square, restores the earlier state, and analyzes the
    /// position. With an empty history nothing changes.
    pub fn undo_move(&mut self)
        requires
            old(self).wf(),
        ensures
            final(self).wf(),
            final(self).standard_bitboards == old(self).standard_bitboards,
            old(self).move_stack@.len() == 0 ==> final(self).position() == old(self).position()
                && final(self).state_stack@ == old(self).state_stack@ && final(self).move_stack@
                == old(self).move_stack@,
            old(self).move_stack@.len() > 0 ==> final(self).position() == old(
                self,
            ).position().before(old(self).move_stack@.last(), old(self).state_stack@.last()),
            old(self).move_stack@.len() > 0 ==> final(self).state_stack@ == old(
                self,
            ).state_stack@.drop_last(),
            old(self).move_stack@.len() > 0 ==> final(self).move_stack@ == old(
                self,
            ).move_stack@.drop_last(),
    {
        let ghost pos = self.position();
        proof {
            reveal(Position::before);
        }
        let full_move = self.move_stack.pop();
        match full_move {
            Some(fm) => {
                let start = fm.inner_move.start();
                let target = fm.inner_move.target();
                proof {
                    Move::lemma_decode(fm.inner_move);
                    Square::lemma_idx_injective(start, Square::Null);
                    Square::lemma_idx_injective(target, Square::Null);
                }
                let moved_piece = fm.piece;
                let placed_piece = if fm.inner_move.is_promotion() {
                    fm.inner_move.promo_piece()
                } else {
                    moved_piece
                };
                self.side_to_move = self.side_to_move.opponent();
                if placed_piece != Piece::Empty {
                    self.remove_piece(target, self.side_to_move, placed_piece);
                }
                self.restore_captured(fm);
                self.restore_rook(fm);
                if moved_piece != Piece::Empty {
                    self.add_piece(start, self.side_to_move, moved_piece);
                }
                match self.state_stack.pop() {
                    Some(prior) => {
                        self.state = prior;
                    },
                    None => {},
                }
                assert(self.position() == pos.before(
                    old(self).move_stack@.last(),
                    old(self).state_stack@.last(),
                ));
                self.analyze_board();
            },
            None => {
                proof {
                    reveal(Board::analyzed);
                }
            },
        }
    }
}

} // verus!
