use vstd::prelude::*;
use vstd::std_specs::convert::FromSpecImpl;
use vstd::string::StringSliceAdditionalSpecFns;
use crate::types::bitboard::Bitboard;
use crate::types::color::Color;
use crate::types::moves::Move;
use crate::types::moves::MoveType;
use crate::types::square::Square;

verus! {

/// The four ways to castle.
#[derive(Copy, Clone, PartialEq, Eq, Structural, Debug)]
pub enum CastlingKind {
    WhiteKingside,
    WhiteQueenside,
    BlackKingside,
    BlackQueenside,
}

impl CastlingKind {
    /// The bit of the rights record that stands for this kind.
    pub open spec fn mask_of(self) -> u8 {
        match self {
            CastlingKind::WhiteKingside => 1,
            CastlingKind::WhiteQueenside => 2,
            CastlingKind::BlackKingside => 4,
            CastlingKind::BlackQueenside => 8,
        }
    }

    /// The squares between king and rook, which must all be empty.
    pub open spec fn path_of(self) -> u64 {
        match self {
            CastlingKind::WhiteKingside => 0x0000_0000_0000_0060,
            CastlingKind::WhiteQueenside => 0x0000_0000_0000_000e,
            CastlingKind::BlackKingside => 0x6000_0000_0000_0000,
            CastlingKind::BlackQueenside => 0x0e00_0000_0000_0000,
        }
    }

    /// The index of the square on which the king starts.
    pub open spec fn king_start(self) -> int {
        match self {
            CastlingKind::WhiteKingside | CastlingKind::WhiteQueenside => 4,
            CastlingKind::BlackKingside | CastlingKind::BlackQueenside => 60,
        }
    }

    /// The index of the square that the king crosses.
    pub open spec fn king_transit(self) -> int {
        match self {
            CastlingKind::WhiteKingside => 5,
            CastlingKind::WhiteQueenside => 3,
            CastlingKind::BlackKingside => 61,
            CastlingKind::BlackQueenside => 59,
        }
    }

    /// The index of the square on which the king arrives.
    pub open spec fn king_target(self) -> int {
        match self {
            CastlingKind::WhiteKingside => 6,
            CastlingKind::WhiteQueenside => 2,
            CastlingKind::BlackKingside => 62,
            CastlingKind::BlackQueenside => 58,
        }
    }

    /// The index of the square on which the rook starts.
    pub open spec fn rook_start(self) -> int {
        match self {
            CastlingKind::WhiteKingside => 7,
            CastlingKind::WhiteQueenside => 0,
            CastlingKind::BlackKingside => 63,
            CastlingKind::BlackQueenside => 56,
        }
    }

    /// The side that castles this way.
    pub open spec fn side_of(self) -> Color {
        match self {
            CastlingKind::WhiteKingside | CastlingKind::WhiteQueenside => Color::White,
            CastlingKind::BlackKingside | CastlingKind::BlackQueenside => Color::Black,
        }
    }

    /// The tag of the castling move of this kind.
    pub open spec fn tag(self) -> int {
        match self {
            CastlingKind::WhiteKingside | CastlingKind::BlackKingside => 2,
            CastlingKind::WhiteQueenside | CastlingKind::BlackQueenside => 3,
        }
    }

    /// The castling move of this kind: the king's move.
    pub open spec fn move_of(self) -> Move {
        Move::encode(self.king_start(), self.king_target(), self.tag())
    }

    /// The bit of the rights record that stands for this kind.
    pub fn mask(self) -> (m: u8)
        ensures
            m == self.mask_of(),
    {
        match self {
            CastlingKind::WhiteKingside => 1,
            CastlingKind::WhiteQueenside => 2,
            CastlingKind::BlackKingside => 4,
            CastlingKind::BlackQueenside => 8,
        }
    }

    /// The squares between king and rook, which must all be empty.
    pub fn path_mask(self) -> (b: Bitboard)
        ensures
            b.0 == self.path_of(),
    {
        match self {
            CastlingKind::WhiteKingside => Bitboard(0x0000_0000_0000_0060),
            CastlingKind::WhiteQueenside => Bitboard(0x0000_0000_0000_000e),
            CastlingKind::BlackKingside => Bitboard(0x6000_0000_0000_0000),
            CastlingKind::BlackQueenside => Bitboard(0x0e00_0000_0000_0000),
        }
    }

    /// The squares that must not be attacked: where the king starts, the
    /// square it crosses and the square on which it arrives.
    pub fn check_squares(self) -> (s: [Square; 3])
        ensures
            s[0].idx() == self.king_start(),
            s[1].idx() == self.king_transit(),
            s[2].idx() == self.king_target(),
    {
        reveal(Square::idx);
        match self {
            CastlingKind::WhiteKingside => [Square::E1, Square::F1, Square::G1],
            CastlingKind::WhiteQueenside => [Square::E1, Square::D1, Square::C1],
            CastlingKind::BlackKingside => [Square::E8, Square::F8, Square::G8],
            CastlingKind::BlackQueenside => [Square::E8, Square::D8, Square::C8],
        }
    }

    /// The castling move of this kind: the king's move.
    pub fn castling_move(self) -> (m: Move)
        ensures
            m == self.move_of(),
    {
        reveal(Square::idx);
        match self {
            CastlingKind::WhiteKingside => Move::new(
                Square::E1,
                Square::G1,
                MoveType::KingsideCastle,
            ),
            CastlingKind::WhiteQueenside => Move::new(
                Square::E1,
                Square::C1,
                MoveType::QueensideCastle,
            ),
            CastlingKind::BlackKingside => Move::new(
                Square::E8,
                Square::G8,
                MoveType::KingsideCastle,
            ),
            CastlingKind::BlackQueenside => Move::new(
                Square::E8,
                Square::C8,
                MoveType::QueensideCastle,
            ),
        }
    }
}

/// The castling rights of both sides: bit 0 white kingside, bit 1 white
/// queenside, bit 2 black kingside, bit 3 black queenside.
#[derive(Copy, Clone, PartialEq, Eq, Structural, Debug)]
pub struct Castling {
    pub raw: u8,
}

/// The rights that survive when the square of index `i` is left or entered:
/// a king's square costs its side both rights, a rook's corner one.
pub open spec fn rights_kept(i: int) -> u8 {
    if i == 0 {
        13
    } else if i == 4 {
        12
    } else if i == 7 {
        14
    } else if i == 56 {
        7
    } else if i == 60 {
        3
    } else if i == 63 {
        11
    } else {
        15
    }
}

/// The right that a letter of a rights field grants; other bytes grant none.
pub open spec fn right_of_letter(c: u8) -> u8 {
    if c == 0x4b {
        1
    } else if c == 0x51 {
        2
    } else if c == 0x6b {
        4
    } else if c == 0x71 {
        8
    } else {
        0
    }
}

/// The rights that the letters of a rights field grant together.
pub open spec fn rights_of(field: Seq<u8>) -> u8
    decreases field.len(),
{
    if field.len() == 0 {
        0
    } else {
        rights_of(field.drop_last()) | right_of_letter(field.last())
    }
}

impl Castling {
    /// Whether the right to castle in the given way is still held.
    pub open spec fn allows(self, kind: CastlingKind) -> bool {
        self.raw & kind.mask_of() != 0
    }

    /// The rights after a move between the squares of index `start` and `target`.
    pub open spec fn updated(self, start: int, target: int) -> Castling {
        Castling { raw: self.raw & (rights_kept(start) & rights_kept(target)) }
    }

    fn kept(square: Square) -> (m: u8)
        ensures
            m == rights_kept(square.idx()),
    {
        reveal(Square::idx);
        match square {
            Square::A1 => 13,
            Square::E1 => 12,
            Square::H1 => 14,
            Square::A8 => 7,
            Square::E8 => 3,
            Square::H8 => 11,
            _ => 15,
        }
    }

    /// Takes away the rights that a move between `start` and `target` ends.
    /// The target counts too: a rook captured on its corner cannot castle.
    pub fn update(&mut self, start: Square, target: Square)
        ensures
            *final(self) == old(self).updated(start.idx(), target.idx()),
    {
        self.raw = self.raw & (Self::kept(start) & Self::kept(target));
    }

    /// Whether the right to castle in the given way is still held.
    pub fn is_allowed(self, kind: CastlingKind) -> (r: bool)
        ensures
            r == self.allows(kind),
    {
        self.raw & kind.mask() != 0
    }
}

impl Default for Castling {
    fn default() -> (c: Castling)
        ensures
            c.raw == 0,
    {
        Castling { raw: 0 }
    }
}

impl From<&str> for Castling {
    fn from(value: &str) -> (c: Castling) {
        let bytes = value.as_bytes();
        let mut raw: u8 = 0;
        let mut i: usize = 0;
        while i < bytes.len()
            invariant
                i <= bytes@.len(),
                raw == rights_of(bytes@.take(i as int)),
            decreases bytes@.len() - i,
        {
            let b: u8 = bytes[i];
            let right: u8 = if b == 0x4b {
                1
            } else if b == 0x51 {
                2
            } else if b == 0x6b {
                4
            } else if b == 0x71 {
                8
            } else {
                0
            };
            assert(bytes@.take(i + 1).drop_last() =~= bytes@.take(i as int));
            raw = raw | right;
            i = i + 1;
        }
        assert(bytes@.take(i as int) =~= bytes@);
        Castling { raw }
    }
}

impl FromSpecImpl<&str> for Castling {
    open spec fn obeys_from_spec() -> bool {
        true
    }

    open spec fn from_spec(value: &str) -> Castling {
        Castling { raw: rights_of(value.spec_bytes()) }
    }
}

proof fn bv_rights(raw: u8, a: u8, b: u8, m: u8)
    by (bit_vector)
    ensures
        (raw & (a & b)) & m != 0 ==> (raw & m != 0 && a & m != 0 && b & m != 0),
        13u8 & 2 == 0,
        12u8 & 1 == 0,
        12u8 & 2 == 0,
        14u8 & 1 == 0,
        7u8 & 8 == 0,
        3u8 & 4 == 0,
        3u8 & 8 == 0,
        11u8 & 4 == 0,
{
}

/// A right that is held after a move was held before it, and the move has
/// touched neither the king's square nor the rook's corner of that right.
pub proof fn lemma_rights_kept(rights: Castling, start: int, target: int, kind: CastlingKind)
    requires
        rights.updated(start, target).allows(kind),
    ensures
        rights.allows(kind),
        start != kind.king_start(),
        start != kind.rook_start(),
        target != kind.king_start(),
        target != kind.rook_start(),
{
    bv_rights(rights.raw, rights_kept(start), rights_kept(target), kind.mask_of());
}

} // verus!
