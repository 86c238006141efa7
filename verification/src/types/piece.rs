use vstd::prelude::*;
use vstd::std_specs::convert::TryFromSpecImpl;

verus! {

/// The kind of a piece, without its colour. `Empty` stands for "no piece".
#[derive(Copy, Clone, PartialEq, Eq, Structural, Debug)]
pub enum Piece {
    Pawn,
    Knight,
    Bishop,
    Rook,
    Queen,
    King,
    Empty,
}

impl Piece {
    /// The number of kinds of piece.
    pub const NUM: usize = 6;

    /// The position of the kind in the order pawn, knight, bishop, rook, queen,
    /// king; 6 for `Empty`.
    pub open spec fn idx(self) -> int {
        match self {
            Piece::Pawn => 0,
            Piece::Knight => 1,
            Piece::Bishop => 2,
            Piece::Rook => 3,
            Piece::Queen => 4,
            Piece::King => 5,
            Piece::Empty => 6,
        }
    }

    /// The kind at the given position of that order, `Empty` beyond it.
    pub open spec fn at(i: int) -> Piece {
        if i == 0 {
            Piece::Pawn
        } else if i == 1 {
            Piece::Knight
        } else if i == 2 {
            Piece::Bishop
        } else if i == 3 {
            Piece::Rook
        } else if i == 4 {
            Piece::Queen
        } else if i == 5 {
            Piece::King
        } else {
            Piece::Empty
        }
    }

    /// Whether the kind moves along rays: bishop, rook or queen.
    pub open spec fn slides(self) -> bool {
        self == Piece::Bishop || self == Piece::Rook || self == Piece::Queen
    }

    /// Creates the kind at the given position; any value beyond the six kinds
    /// gives `Empty`.
    pub fn new(value: usize) -> (p: Piece)
        ensures
            p == Piece::at(value as int),
    {
        match value {
            0 => Piece::Pawn,
            1 => Piece::Knight,
            2 => Piece::Bishop,
            3 => Piece::Rook,
            4 => Piece::Queen,
            5 => Piece::King,
            _ => Piece::Empty,
        }
    }

    /// The position of the kind, 6 for `Empty`.
    pub fn index(self) -> (i: usize)
        ensures
            i == self.idx(),
    {
        match self {
            Piece::Pawn => 0,
            Piece::Knight => 1,
            Piece::Bishop => 2,
            Piece::Rook => 3,
            Piece::Queen => 4,
            Piece::King => 5,
            Piece::Empty => 6,
        }
    }
}

/// The kind that a piece letter stands for, in either case.
pub open spec fn piece_of_letter(c: char) -> Result<Piece, ()> {
    if c == 'p' || c == 'P' {
        Ok(Piece::Pawn)
    } else if c == 'n' || c == 'N' {
        Ok(Piece::Knight)
    } else if c == 'b' || c == 'B' {
        Ok(Piece::Bishop)
    } else if c == 'r' || c == 'R' {
        Ok(Piece::Rook)
    } else if c == 'q' || c == 'Q' {
        Ok(Piece::Queen)
    } else if c == 'k' || c == 'K' {
        Ok(Piece::King)
    } else {
        Err(())
    }
}

impl TryFrom<char> for Piece {
    type Error = ();

    fn try_from(s: char) -> (r: Result<Self, Self::Error>) {
        match s {
            'p' | 'P' => Ok(Piece::Pawn),
            'n' | 'N' => Ok(Piece::Knight),
            'b' | 'B' => Ok(Piece::Bishop),
            'r' | 'R' => Ok(Piece::Rook),
            'q' | 'Q' => Ok(Piece::Queen),
            'k' | 'K' => Ok(Piece::King),
            _ => Err(()),
        }
    }
}

impl TryFromSpecImpl<char> for Piece {
    open spec fn obeys_try_from_spec() -> bool {
        true
    }

    open spec fn try_from_spec(v: char) -> Result<Self, Self::Error> {
        piece_of_letter(v)
    }
}

} // verus!
