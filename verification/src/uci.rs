use vstd::prelude::*;
use vstd::string::StringExecFns;
use crate::board::Board;
use crate::board::Position;
use crate::types::moves::FullMove;
use crate::types::moves::Move;
use crate::types::moves::MoveType;
use crate::types::piece::Piece;
use crate::types::square::Square;

verus! {

/// A move with its name in algebraic notation.
pub struct AlgebraicMove {
    pub full_move: FullMove,
    /// Algebraic notation
    pub algebraic: String,
}

impl AlgebraicMove {
    /// The move with the given name.
    pub fn new(full_move: &FullMove, algebraic: String) -> (m: AlgebraicMove)
        ensures
            m.full_move == *full_move,
            m.algebraic == algebraic,
    {
        AlgebraicMove { full_move: *full_move, algebraic }
    }
}

/// The letter of a file, counted from 0; nothing beyond the h-file.
pub open spec fn file_label(f: int) -> Seq<char> {
    if f == 0 {
        "a"@
    } else if f == 1 {
        "b"@
    } else if f == 2 {
        "c"@
    } else if f == 3 {
        "d"@
    } else if f == 4 {
        "e"@
    } else if f == 5 {
        "f"@
    } else if f == 6 {
        "g"@
    } else if f == 7 {
        "h"@
    } else {
        ""@
    }
}

/// The digit of a rank, counted from 0; nothing beyond the eighth rank.
pub open spec fn rank_label(r: int) -> Seq<char> {
    if r == 0 {
        "1"@
    } else if r == 1 {
        "2"@
    } else if r == 2 {
        "3"@
    } else if r == 3 {
        "4"@
    } else if r == 4 {
        "5"@
    } else if r == 5 {
        "6"@
    } else if r == 6 {
        "7"@
    } else if r == 7 {
        "8"@
    } else {
        ""@
    }
}

/// The name of the square of index `i`: the letter of its file and the digit
/// of its rank.
pub open spec fn square_label(i: int) -> Seq<char> {
    file_label(i % 8) + rank_label(i / 8)
}

/// The letter of a piece; nothing for a pawn.
pub open spec fn piece_label(piece: Piece) -> Seq<char> {
    match piece {
        Piece::Rook => "R"@,
        Piece::Bishop => "B"@,
        Piece::King => "K"@,
        Piece::Knight => "N"@,
        Piece::Queen => "Q"@,
        _ => ""@,
    }
}

/// `x` for a capture, nothing otherwise.
pub open spec fn capture_label(captures: bool) -> Seq<char> {
    if captures {
        "x"@
    } else {
        ""@
    }
}

/// The moves of `moves` that a piece of the kind `piece` makes to the square
/// of index `target`, in order.
pub open spec fn rivals(pos: Position, moves: Seq<Move>, piece: Piece, target: int) -> Seq<Move>
    decreases moves.len(),
{
    if moves.len() == 0 {
        Seq::empty()
    } else if pos.piece_at(moves.last().start_idx()) == piece && moves.last().target_idx()
        == target {
        rivals(pos, moves.drop_last(), piece, target).push(moves.last())
    } else {
        rivals(pos, moves.drop_last(), piece, target)
    }
}

/// What tells the start of a piece's move apart from the other moves of a
/// piece of its kind to the same square: nothing if there is no other such
/// move; with one other, the rank of the start if both start on one file,
/// else the file of the start; the name of the start square otherwise.
pub open spec fn location_label(pos: Position, moves: Seq<Move>, mv: Move) -> Seq<char> {
    let same = rivals(pos, moves, pos.piece_at(mv.start_idx()), mv.target_idx());
    if same.len() == 1 {
        ""@
    } else if same.len() == 2 {
        if same[0].start_idx() % 8 == same[1].start_idx() % 8 {
            rank_label(mv.start_idx() / 8)
        } else {
            file_label(mv.start_idx() % 8)
        }
    } else {
        square_label(mv.start_idx())
    }
}

/// The name of a pawn's move: the file of its start and `x` if it captures,
/// the target square, and `=` with the letter of the new piece if it promotes.
pub open spec fn pawn_notation(mv: Move) -> Seq<char> {
    (if mv.captures() {
        file_label(mv.start_idx() % 8)
    } else {
        ""@
    }) + capture_label(mv.captures()) + square_label(mv.target_idx()) + (if mv.promotes() {
        "="@ + piece_label(mv.kind_of().promoted())
    } else {
        ""@ + ""@
    })
}

/// The name of the move of a piece that is no pawn: the letter of the piece,
/// what tells its start apart, `x` if it captures, and the target square.
pub open spec fn piece_notation(pos: Position, moves: Seq<Move>, mv: Move) -> Seq<char> {
    piece_label(pos.piece_at(mv.start_idx())) + location_label(pos, moves, mv) + capture_label(
        mv.captures(),
    ) + square_label(mv.target_idx())
}

/// The name of a move among the given moves in algebraic notation: `O-O` or
/// `O-O-O` for castling, else the name of a pawn's move or of a piece's move.
pub open spec fn notation(pos: Position, moves: Seq<Move>, mv: Move) -> Seq<char> {
    if mv.tag() == 2 {
        "O-O"@
    } else if mv.tag() == 3 {
        "O-O-O"@
    } else if pos.piece_at(mv.start_idx()) == Piece::Pawn {
        pawn_notation(mv)
    } else {
        piece_notation(pos, moves, mv)
    }
}

/// The move with the piece that makes it and the piece that it captures: a
/// pawn for an en passant capture, else what stands on the target square.
pub open spec fn full_of(pos: Position, mv: Move) -> FullMove {
    FullMove {
        piece: pos.piece_at(mv.start_idx()),
        captured: if mv.tag() == 5 {
            Piece::Pawn
        } else {
            pos.piece_at(mv.target_idx())
        },
        inner_move: mv,
    }
}

fn file_str(f: usize) -> (s: &'static str)
    ensures
        s@ == file_label(f as int),
{
    match f {
        0 => "a",
        1 => "b",
        2 => "c",
        3 => "d",
        4 => "e",
        5 => "f",
        6 => "g",
        7 => "h",
        _ => "",
    }
}

fn rank_str(r: usize) -> (s: &'static str)
    ensures
        s@ == rank_label(r as int),
{
    match r {
        0 => "1",
        1 => "2",
        2 => "3",
        3 => "4",
        4 => "5",
        5 => "6",
        6 => "7",
        7 => "8",
        _ => "",
    }
}

fn piece_str(piece: Piece) -> (s: &'static str)
    ensures
        s@ == piece_label(piece),
{
    match piece {
        Piece::Rook => "R",
        Piece::Bishop => "B",
        Piece::King => "K",
        Piece::Knight => "N",
        Piece::Queen => "Q",
        _ => "",
    }
}

impl Square {
    /// The name of the square: the letter of its file and the digit of its
    /// rank; nothing for `Null`.
    pub fn to_string(&self) -> (s: String)
        ensures
            s@ == (if *self == Square::Null {
                ""@
            } else {
                square_label(self.idx())
            }),
    {
        let i: usize = self.index();
        if i < 64 {
            let mut s = String::from_str(file_str(i % 8));
            s.append(rank_str(i / 8));
            s
        } else {
            String::from_str("")
        }
    }
}

/// The move with the piece that makes it and the piece that it captures.
pub fn move_to_full(mv: Move, board: &Board) -> (fm: FullMove)
    ensures
        fm == full_of(board.position(), mv),
{
    let piece = board.piece_on(mv.start());
    let captured = if mv.is_en_passant() {
        Piece::Pawn
    } else {
        board.piece_on(mv.target())
    };
    proof {
        Move::lemma_decode(mv);
    }
    FullMove::new(piece, captured, mv)
}

/// The moves of the list that a piece of the given kind makes to the target.
fn collect_rivals(board: &Board, piece: Piece, target: Square) -> (same: Vec<Move>)
    ensures
        same@ == rivals(board.position(), board.legal_moves@, piece, target.idx()),
{
    let mut same: Vec<Move> = Vec::new();
    let total_moves = board.legal_moves.len();
    let mut i: usize = 0;
    assert(board.legal_moves@.take(0) =~= Seq::<Move>::empty());
    while i < total_moves
        invariant
            i <= total_moves,
            total_moves == board.legal_moves@.len(),
            same@ == rivals(
                board.position(),
                board.legal_moves@.take(i as int),
                piece,
                target.idx(),
            ),
        decreases total_moves - i,
    {
        let m = board.legal_moves.get(i);
        proof {
            assert(board.legal_moves@.take(i + 1).drop_last() =~= board.legal_moves@.take(
                i as int,
            ));
            assert(board.legal_moves@.take(i + 1).last() == m);
            Move::lemma_decode(m);
        }
        if board.piece_on(m.start()) == piece && m.target().index() == target.index() {
            same.push(m);
        }
        i = i + 1;
    }
    assert(board.legal_moves@.take(total_moves as int) =~= board.legal_moves@);
    same
}

/// The name of the square: the letter of its file and the digit of its rank.
fn square_name(square: Square) -> (s: String)
    requires
        square != Square::Null,
    ensures
        s@ == square_label(square.idx()),
{
    let mut s = String::from_str(file_str(square.file()));
    s.append(rank_str(square.rank()));
    s
}

/// The name of a pawn's move.
fn pawn_name(mv: Move) -> (alg: String)
    ensures
        alg@ == pawn_notation(mv),
{
    let start = mv.start();
    let target = mv.target();
    proof {
        Move::lemma_decode(mv);
        Square::lemma_idx_injective(target, Square::Null);
    }
    let is_capture = mv.is_capture();
    let mut alg = if is_capture {
        String::from_str(file_str(start.file()))
    } else {
        String::from_str("")
    };
    alg.append(if is_capture {
        "x"
    } else {
        ""
    });
    let target_segment = square_name(target);
    alg.append(target_segment.as_str());
    let mut promo_segment = String::from_str(if mv.is_promotion() {
        "="
    } else {
        ""
    });
    promo_segment.append(if mv.is_promotion() {
        piece_str(mv.promo_piece())
    } else {
        ""
    });
    alg.append(promo_segment.as_str());
    alg
}

/// What tells the start of a piece's move apart from the other moves of a
/// piece of its kind to the same square.
fn location_name(board: &Board, mv: Move) -> (s: String)
    ensures
        s@ == location_label(board.position(), board.legal_moves@, mv),
{
    let start = mv.start();
    let target = mv.target();
    proof {
        Move::lemma_decode(mv);
        Square::lemma_idx_injective(start, Square::Null);
    }
    let same = collect_rivals(board, board.piece_on(start), target);
    if same.len() == 1 {
        String::from_str("")
    } else if same.len() == 2 {
        proof {
            Move::lemma_decode(same@[0]);
            Move::lemma_decode(same@[1]);
        }
        if same[0].start().file() == same[1].start().file() {
            String::from_str(rank_str(start.rank()))
        } else {
            String::from_str(file_str(start.file()))
        }
    } else {
        square_name(start)
    }
}

/// The name of the move of a piece that is no pawn.
fn piece_name(board: &Board, mv: Move) -> (alg: String)
    ensures
        alg@ == piece_notation(board.position(), board.legal_moves@, mv),
{
    let target = mv.target();
    proof {
        Move::lemma_decode(mv);
        Square::lemma_idx_injective(target, Square::Null);
    }
    let mut alg = String::from_str(piece_str(board.piece_on(mv.start())));
    let location_segment = location_name(board, mv);
    alg.append(location_segment.as_str());
    alg.append(if mv.is_capture() {
        "x"
    } else {
        ""
    });
    let target_segment = square_name(target);
    alg.append(target_segment.as_str());
    alg
}

/// The name of one move of the list in algebraic notation.
fn algebraic_of(board: &Board, mv: Move) -> (alg: String)
    ensures
        alg@ == notation(board.position(), board.legal_moves@, mv),
{
    let kind = mv.kind();
    proof {
        Move::lemma_decode(mv);
    }
    if kind == MoveType::KingsideCastle {
        String::from_str("O-O")
    } else if kind == MoveType::QueensideCastle {
        String::from_str("O-O-O")
    } else if board.piece_on(mv.start()) == Piece::Pawn {
        pawn_name(mv)
    } else {
        piece_name(board, mv)
    }
}

/// The legal moves of the board, each with its name in algebraic notation,
/// in the order of the list of legal moves.
pub fn collect_algebraic_moves(board: &Board) -> (alg_moves_vec: Vec<AlgebraicMove>)
    ensures
        alg_moves_vec@.len() == board.legal_moves@.len(),
        forall|i: int|
            0 <= i < alg_moves_vec@.len() ==> (#[trigger] alg_moves_vec@[i]).full_move == full_of(
                board.position(),
                board.legal_moves@[i],
            ) && alg_moves_vec@[i].algebraic@ == notation(
                board.position(),
                board.legal_moves@,
                board.legal_moves@[i],
            ),
{
    let mut alg_moves_vec: Vec<AlgebraicMove> = Vec::new();
    let total_moves = board.legal_moves.len();
    let mut i: usize = 0;
    while i < total_moves
        invariant
            i <= total_moves,
            total_moves == board.legal_moves@.len(),
            alg_moves_vec@.len() == i,
            forall|k: int|
                0 <= k < i ==> (#[trigger] alg_moves_vec@[k]).full_move == full_of(
                    board.position(),
                    board.legal_moves@[k],
                ) && alg_moves_vec@[k].algebraic@ == notation(
                    board.position(),
                    board.legal_moves@,
                    board.legal_moves@[k],
                ),
        decreases total_moves - i,
    {
        let lm = board.legal_moves.get(i);
        let fm = move_to_full(lm, board);
        let alg_notation = algebraic_of(board, lm);
        alg_moves_vec.push(AlgebraicMove::new(&fm, alg_notation));
        i = i + 1;
    }
    alg_moves_vec
}

} // verus!
