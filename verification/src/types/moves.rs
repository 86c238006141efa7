use vstd::prelude::*;
use crate::types::piece::Piece;
use crate::types::square::Square;

verus! {

/// The kinds of move. A kind is a tag of four bits: bit 3 marks a promotion,
/// bit 2 a capture, and the two low bits tell the kinds of each group apart.
#[derive(Copy, Clone, PartialEq, Eq, Structural, Debug)]
pub enum MoveType {
    /// A move to an empty square with nothing more to it.
    Quiet,
    /// A pawn's advance by two ranks, which opens an en passant capture.
    DoublePawnPush,
    /// Castling towards the h-file.
    KingsideCastle,
    /// Castling towards the a-file.
    QueensideCastle,
    /// A capture on the target square.
    Capture,
    /// A pawn's capture of the pawn that has just passed it.
    EnPassant,
    PromotionToKnight,
    PromotionToBishop,
    PromotionToRook,
    PromotionToQueen,
    PromotionCaptureToKnight,
    PromotionCaptureToBishop,
    PromotionCaptureToRook,
    PromotionCaptureToQueen,
}

impl MoveType {
    /// The four-bit tag of the kind.
    pub open spec fn tag(self) -> int {
        match self {
            MoveType::Quiet => 0,
            MoveType::DoublePawnPush => 1,
            MoveType::KingsideCastle => 2,
            MoveType::QueensideCastle => 3,
            MoveType::Capture => 4,
            MoveType::EnPassant => 5,
            MoveType::PromotionToKnight => 8,
            MoveType::PromotionToBishop => 9,
            MoveType::PromotionToRook => 10,
            MoveType::PromotionToQueen => 11,
            MoveType::PromotionCaptureToKnight => 12,
            MoveType::PromotionCaptureToBishop => 13,
            MoveType::PromotionCaptureToRook => 14,
            MoveType::PromotionCaptureToQueen => 15,
        }
    }

    /// The kind of a tag. The two tags that name no kind, 6 and 7, have the
    /// capture bit and no promotion bit, and count as plain captures.
    pub open spec fn of_tag(t: int) -> MoveType {
        if t == 0 {
            MoveType::Quiet
        } else if t == 1 {
            MoveType::DoublePawnPush
        } else if t == 2 {
            MoveType::KingsideCastle
        } else if t == 3 {
            MoveType::QueensideCastle
        } else if t == 5 {
            MoveType::EnPassant
        } else if t == 8 {
            MoveType::PromotionToKnight
        } else if t == 9 {
            MoveType::PromotionToBishop
        } else if t == 10 {
            MoveType::PromotionToRook
        } else if t == 11 {
            MoveType::PromotionToQueen
        } else if t == 12 {
            MoveType::PromotionCaptureToKnight
        } else if t == 13 {
            MoveType::PromotionCaptureToBishop
        } else if t == 14 {
            MoveType::PromotionCaptureToRook
        } else if t == 15 {
            MoveType::PromotionCaptureToQueen
        } else {
            MoveType::Capture
        }
    }

    /// The piece that a promotion of this kind puts on the board, `Empty` for
    /// a kind that promotes nothing.
    pub open spec fn promoted(self) -> Piece {
        match self {
            MoveType::PromotionToKnight | MoveType::PromotionCaptureToKnight => Piece::Knight,
            MoveType::PromotionToBishop | MoveType::PromotionCaptureToBishop => Piece::Bishop,
            MoveType::PromotionToRook | MoveType::PromotionCaptureToRook => Piece::Rook,
            MoveType::PromotionToQueen | MoveType::PromotionCaptureToQueen => Piece::Queen,
            _ => Piece::Empty,
        }
    }

    /// The four-bit tag of the kind.
    pub fn bits(self) -> (t: u16)
        ensures
            t == self.tag(),
            t < 16,
    {
        match self {
            MoveType::Quiet => 0,
            MoveType::DoublePawnPush => 1,
            MoveType::KingsideCastle => 2,
            MoveType::QueensideCastle => 3,
            MoveType::Capture => 4,
            MoveType::EnPassant => 5,
            MoveType::PromotionToKnight => 8,
            MoveType::PromotionToBishop => 9,
            MoveType::PromotionToRook => 10,
            MoveType::PromotionToQueen => 11,
            MoveType::PromotionCaptureToKnight => 12,
            MoveType::PromotionCaptureToBishop => 13,
            MoveType::PromotionCaptureToRook => 14,
            MoveType::PromotionCaptureToQueen => 15,
        }
    }

    /// The kind of a tag, read from the four low bits of `t`.
    pub fn from_bits(t: u16) -> (k: MoveType)
        ensures
            k == MoveType::of_tag(t as int % 16),
    {
        match t % 16 {
            0 => MoveType::Quiet,
            1 => MoveType::DoublePawnPush,
            2 => MoveType::KingsideCastle,
            3 => MoveType::QueensideCastle,
            5 => MoveType::EnPassant,
            8 => MoveType::PromotionToKnight,
            9 => MoveType::PromotionToBishop,
            10 => MoveType::PromotionToRook,
            11 => MoveType::PromotionToQueen,
            12 => MoveType::PromotionCaptureToKnight,
            13 => MoveType::PromotionCaptureToBishop,
            14 => MoveType::PromotionCaptureToRook,
            15 => MoveType::PromotionCaptureToQueen,
            _ => MoveType::Capture,
        }
    }
}

/// A move: the start square in bits 0 to 5, the target square in bits 6 to 11
/// and the tag of the kind in bits 12 to 15.
#[derive(Copy, Clone, PartialEq, Eq, Structural, Debug)]
pub struct Move(pub u16);

/// A move together with the piece that made it and the piece it captured.
#[derive(Copy, Clone, PartialEq, Eq, Structural, Debug)]
pub struct FullMove {
    pub piece: Piece,
    pub captured: Piece,
    pub inner_move: Move,
}

impl FullMove {
    /// The record of a move with the piece that made it and the piece it captured.
    pub fn new(piece: Piece, captured: Piece, inner_move: Move) -> (m: FullMove)
        ensures
            m == (FullMove { piece, captured, inner_move }),
    {
        FullMove { piece, captured, inner_move }
    }
}

impl Move {
    /// The bits that hold the start square.
    pub const START_MASK: u16 = 0x003f;

    /// The bits that hold the target square.
    pub const TARGET_MASK: u16 = 0x0fc0;

    /// The move from square `start` to square `target` with the tag `tag`.
    pub open spec fn encode(start: int, target: int, tag: int) -> Move {
        Move((start + 64 * target + 4096 * tag) as u16)
    }

    /// The index of the start square.
    pub open spec fn start_idx(self) -> int {
        self.0 as int % 64
    }

    /// The index of the target square.
    pub open spec fn target_idx(self) -> int {
        (self.0 as int / 64) % 64
    }

    /// The tag of the kind.
    pub open spec fn tag(self) -> int {
        self.0 as int / 4096
    }

    /// The kind of the move.
    pub open spec fn kind_of(self) -> MoveType {
        MoveType::of_tag(self.tag())
    }

    /// Whether the capture bit of the tag is set.
    pub open spec fn captures(self) -> bool {
        (self.tag() / 4) % 2 == 1
    }

    /// Whether the promotion bit of the tag is set.
    pub open spec fn promotes(self) -> bool {
        self.tag() >= 8
    }

    /// Whether the move is one of the two castling moves.
    pub open spec fn castles(self) -> bool {
        self.tag() == 2 || self.tag() == 3
    }

    /// A move is told by its start, its target and its tag.
    pub proof fn lemma_encode(start: int, target: int, tag: int)
        requires
            0 <= start < 64,
            0 <= target < 64,
            0 <= tag < 16,
        ensures
            Move::encode(start, target, tag).start_idx() == start,
            Move::encode(start, target, tag).target_idx() == target,
            Move::encode(start, target, tag).tag() == tag,
    {
    }

    /// Every move is the encoding of its three parts.
    pub proof fn lemma_decode(m: Move)
        ensures
            m == Move::encode(m.start_idx(), m.target_idx(), m.tag()),
            0 <= m.start_idx() < 64,
            0 <= m.target_idx() < 64,
            0 <= m.tag() < 16,
    {
    }

    /// Creates the move of the given kind between two squares of the board.
    pub fn new(start: Square, target: Square, move_type: MoveType) -> (m: Move)
        requires
            start != Square::Null,
            target != Square::Null,
        ensures
            m == Move::encode(start.idx(), target.idx(), move_type.tag()),
            m.start_idx() == start.idx(),
            m.target_idx() == target.idx(),
            m.tag() == move_type.tag(),
    {
        let start_index: u16 = start.index() as u16;
        let target_index: u16 = target.index() as u16;
        Move(start_index + target_index * 64 + move_type.bits() * 4096)
    }

    /// The square that the move leaves.
    pub fn start(self) -> (s: Square)
        ensures
            s == Square::at(self.start_idx()),
            s.idx() == self.start_idx(),
    {
        Square::new((self.0 % 64) as u8)
    }

    /// The square that the move reaches.
    pub fn target(self) -> (s: Square)
        ensures
            s == Square::at(self.target_idx()),
            s.idx() == self.target_idx(),
    {
        Square::new(((self.0 / 64) % 64) as u8)
    }

    /// The kind of the move.
    pub fn kind(self) -> (k: MoveType)
        ensures
            k == self.kind_of(),
    {
        MoveType::from_bits(self.0 / 4096)
    }

    /// Whether the move is an en passant capture.
    pub fn is_en_passant(self) -> (r: bool)
        ensures
            r == (self.tag() == 5),
            r == (self.kind_of() == MoveType::EnPassant),
    {
        self.0 / 4096 == 5
    }

    /// Whether the move is a pawn's advance by two ranks.
    pub fn is_double_pawn_push(self) -> (r: bool)
        ensures
            r == (self.tag() == 1),
            r == (self.kind_of() == MoveType::DoublePawnPush),
    {
        self.0 / 4096 == 1
    }

    /// Whether the move is one of the two castling moves.
    pub fn is_castling(self) -> (r: bool)
        ensures
            r == self.castles(),
            r == (self.kind_of() == MoveType::KingsideCastle || self.kind_of()
                == MoveType::QueensideCastle),
    {
        let t: u16 = self.0 / 4096;
        t == 2 || t == 3
    }

    /// Whether the move captures: the capture bit of its tag, whatever stands
    /// on the target square.
    pub fn is_capture(self) -> (r: bool)
        ensures
            r == self.captures(),
    {
        (self.0 / 16384) % 2 == 1
    }

    /// Whether the move promotes a pawn.
    pub fn is_promotion(self) -> (r: bool)
        ensures
            r == self.promotes(),
    {
        self.0 >= 32768
    }

    /// The piece that the move's promotion puts on the board, `Empty` when the
    /// move promotes nothing.
    pub fn promo_piece(self) -> (p: Piece)
        ensures
            p == self.kind_of().promoted(),
    {
        match self.kind() {
            MoveType::PromotionToKnight | MoveType::PromotionCaptureToKnight => Piece::Knight,
            MoveType::PromotionToBishop | MoveType::PromotionCaptureToBishop => Piece::Bishop,
            MoveType::PromotionToRook | MoveType::PromotionCaptureToRook => Piece::Rook,
            MoveType::PromotionToQueen | MoveType::PromotionCaptureToQueen => Piece::Queen,
            _ => Piece::Empty,
        }
    }
}

impl Default for Move {
    fn default() -> (m: Move)
        ensures
            m.0 == 0,
    {
        Move(0)
    }
}

} // verus!
