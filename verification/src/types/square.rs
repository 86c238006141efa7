use vstd::prelude::*;
use vstd::std_specs::convert::TryFromSpecImpl;
use vstd::std_specs::ops::BitXorSpecImpl;
use vstd::string::StringSliceAdditionalSpecFns;

verus! {

/// A square of the board under the little-endian rank-file mapping: `A1` is 0,
/// `B1` is 1, `H8` is 63. `Null` stands for "no square".
#[derive(Copy, Clone, PartialEq, Eq, Structural, Debug)]
pub enum Square {
    A1, B1, C1, D1, E1, F1, G1, H1,
    A2, B2, C2, D2, E2, F2, G2, H2,
    A3, B3, C3, D3, E3, F3, G3, H3,
    A4, B4, C4, D4, E4, F4, G4, H4,
    A5, B5, C5, D5, E5, F5, G5, H5,
    A6, B6, C6, D6, E6, F6, G6, H6,
    A7, B7, C7, D7, E7, F7, G7, H7,
    A8, B8, C8, D8, E8, F8, G8, H8,
    Null,
}

impl Square {
    /// The number of squares on the board.
    pub const NUM: usize = 64;

    /// The index of the square, 64 for `Null`.
    #[verifier::opaque]
    pub open spec fn idx(self) -> int {
        match self {
            Square::A1 => 0,
            Square::B1 => 1,
            Square::C1 => 2,
            Square::D1 => 3,
            Square::E1 => 4,
            Square::F1 => 5,
            Square::G1 => 6,
            Square::H1 => 7,
            Square::A2 => 8,
            Square::B2 => 9,
            Square::C2 => 10,
            Square::D2 => 11,
            Square::E2 => 12,
            Square::F2 => 13,
            Square::G2 => 14,
            Square::H2 => 15,
            Square::A3 => 16,
            Square::B3 => 17,
            Square::C3 => 18,
            Square::D3 => 19,
            Square::E3 => 20,
            Square::F3 => 21,
            Square::G3 => 22,
            Square::H3 => 23,
            Square::A4 => 24,
            Square::B4 => 25,
            Square::C4 => 26,
            Square::D4 => 27,
            Square::E4 => 28,
            Square::F4 => 29,
            Square::G4 => 30,
            Square::H4 => 31,
            Square::A5 => 32,
            Square::B5 => 33,
            Square::C5 => 34,
            Square::D5 => 35,
            Square::E5 => 36,
            Square::F5 => 37,
            Square::G5 => 38,
            Square::H5 => 39,
            Square::A6 => 40,
            Square::B6 => 41,
            Square::C6 => 42,
            Square::D6 => 43,
            Square::E6 => 44,
            Square::F6 => 45,
            Square::G6 => 46,
            Square::H6 => 47,
            Square::A7 => 48,
            Square::B7 => 49,
            Square::C7 => 50,
            Square::D7 => 51,
            Square::E7 => 52,
            Square::F7 => 53,
            Square::G7 => 54,
            Square::H7 => 55,
            Square::A8 => 56,
            Square::B8 => 57,
            Square::C8 => 58,
            Square::D8 => 59,
            Square::E8 => 60,
            Square::F8 => 61,
            Square::G8 => 62,
            Square::H8 => 63,
            Square::Null => 64,
        }
    }

    /// The square with the given index, `Null` for an index off the board.
    #[verifier::opaque]
    pub open spec fn at(i: int) -> Square {
        if i == 0 {
            Square::A1
        } else if i == 1 {
            Square::B1
        } else if i == 2 {
            Square::C1
        } else if i == 3 {
            Square::D1
        } else if i == 4 {
            Square::E1
        } else if i == 5 {
            Square::F1
        } else if i == 6 {
            Square::G1
        } else if i == 7 {
            Square::H1
        } else if i == 8 {
            Square::A2
        } else if i == 9 {
            Square::B2
        } else if i == 10 {
            Square::C2
        } else if i == 11 {
            Square::D2
        } else if i == 12 {
            Square::E2
        } else if i == 13 {
            Square::F2
        } else if i == 14 {
            Square::G2
        } else if i == 15 {
            Square::H2
        } else if i == 16 {
            Square::A3
        } else if i == 17 {
            Square::B3
        } else if i == 18 {
            Square::C3
        } else if i == 19 {
            Square::D3
        } else if i == 20 {
            Square::E3
        } else if i == 21 {
            Square::F3
        } else if i == 22 {
            Square::G3
        } else if i == 23 {
            Square::H3
        } else if i == 24 {
            Square::A4
        } else if i == 25 {
            Square::B4
        } else if i == 26 {
            Square::C4
        } else if i == 27 {
            Square::D4
        } else if i == 28 {
            Square::E4
        } else if i == 29 {
            Square::F4
        } else if i == 30 {
            Square::G4
        } else if i == 31 {
            Square::H4
        } else if i == 32 {
            Square::A5
        } else if i == 33 {
            Square::B5
        } else if i == 34 {
            Square::C5
        } else if i == 35 {
            Square::D5
        } else if i == 36 {
            Square::E5
        } else if i == 37 {
            Square::F5
        } else if i == 38 {
            Square::G5
        } else if i == 39 {
            Square::H5
        } else if i == 40 {
            Square::A6
        } else if i == 41 {
            Square::B6
        } else if i == 42 {
            Square::C6
        } else if i == 43 {
            Square::D6
        } else if i == 44 {
            Square::E6
        } else if i == 45 {
            Square::F6
        } else if i == 46 {
            Square::G6
        } else if i == 47 {
            Square::H6
        } else if i == 48 {
            Square::A7
        } else if i == 49 {
            Square::B7
        } else if i == 50 {
            Square::C7
        } else if i == 51 {
            Square::D7
        } else if i == 52 {
            Square::E7
        } else if i == 53 {
            Square::F7
        } else if i == 54 {
            Square::G7
        } else if i == 55 {
            Square::H7
        } else if i == 56 {
            Square::A8
        } else if i == 57 {
            Square::B8
        } else if i == 58 {
            Square::C8
        } else if i == 59 {
            Square::D8
        } else if i == 60 {
            Square::E8
        } else if i == 61 {
            Square::F8
        } else if i == 62 {
            Square::G8
        } else if i == 63 {
            Square::H8
        } else {
            Square::Null
        }
    }

    /// Creates the square with the given index. Any value that names no square
    /// gives `Null`.
    pub fn new(value: u8) -> (s: Square)
        ensures
            s.idx() == (if value < 64 { value as int } else { 64 }),
            s == Square::at(value as int),
    {
        reveal(Square::idx);
        reveal(Square::at);
        let s = match value {
            0 => Square::A1,
            1 => Square::B1,
            2 => Square::C1,
            3 => Square::D1,
            4 => Square::E1,
            5 => Square::F1,
            6 => Square::G1,
            7 => Square::H1,
            8 => Square::A2,
            9 => Square::B2,
            10 => Square::C2,
            11 => Square::D2,
            12 => Square::E2,
            13 => Square::F2,
            14 => Square::G2,
            15 => Square::H2,
            16 => Square::A3,
            17 => Square::B3,
            18 => Square::C3,
            19 => Square::D3,
            20 => Square::E3,
            21 => Square::F3,
            22 => Square::G3,
            23 => Square::H3,
            24 => Square::A4,
            25 => Square::B4,
            26 => Square::C4,
            27 => Square::D4,
            28 => Square::E4,
            29 => Square::F4,
            30 => Square::G4,
            31 => Square::H4,
            32 => Square::A5,
            33 => Square::B5,
            34 => Square::C5,
            35 => Square::D5,
            36 => Square::E5,
            37 => Square::F5,
            38 => Square::G5,
            39 => Square::H5,
            40 => Square::A6,
            41 => Square::B6,
            42 => Square::C6,
            43 => Square::D6,
            44 => Square::E6,
            45 => Square::F6,
            46 => Square::G6,
            47 => Square::H6,
            48 => Square::A7,
            49 => Square::B7,
            50 => Square::C7,
            51 => Square::D7,
            52 => Square::E7,
            53 => Square::F7,
            54 => Square::G7,
            55 => Square::H7,
            56 => Square::A8,
            57 => Square::B8,
            58 => Square::C8,
            59 => Square::D8,
            60 => Square::E8,
            61 => Square::F8,
            62 => Square::G8,
            63 => Square::H8,
            _ => Square::Null,
        };
        s
    }

    /// The index of the square, 64 for `Null`.
    pub fn index(self) -> (i: usize)
        ensures
            i == self.idx(),
            i <= 64,
            i == 64 <==> self == Square::Null,
    {
        reveal(Square::idx);
        match self {
            Square::A1 => 0,
            Square::B1 => 1,
            Square::C1 => 2,
            Square::D1 => 3,
            Square::E1 => 4,
            Square::F1 => 5,
            Square::G1 => 6,
            Square::H1 => 7,
            Square::A2 => 8,
            Square::B2 => 9,
            Square::C2 => 10,
            Square::D2 => 11,
            Square::E2 => 12,
            Square::F2 => 13,
            Square::G2 => 14,
            Square::H2 => 15,
            Square::A3 => 16,
            Square::B3 => 17,
            Square::C3 => 18,
            Square::D3 => 19,
            Square::E3 => 20,
            Square::F3 => 21,
            Square::G3 => 22,
            Square::H3 => 23,
            Square::A4 => 24,
            Square::B4 => 25,
            Square::C4 => 26,
            Square::D4 => 27,
            Square::E4 => 28,
            Square::F4 => 29,
            Square::G4 => 30,
            Square::H4 => 31,
            Square::A5 => 32,
            Square::B5 => 33,
            Square::C5 => 34,
            Square::D5 => 35,
            Square::E5 => 36,
            Square::F5 => 37,
            Square::G5 => 38,
            Square::H5 => 39,
            Square::A6 => 40,
            Square::B6 => 41,
            Square::C6 => 42,
            Square::D6 => 43,
            Square::E6 => 44,
            Square::F6 => 45,
            Square::G6 => 46,
            Square::H6 => 47,
            Square::A7 => 48,
            Square::B7 => 49,
            Square::C7 => 50,
            Square::D7 => 51,
            Square::E7 => 52,
            Square::F7 => 53,
            Square::G7 => 54,
            Square::H7 => 55,
            Square::A8 => 56,
            Square::B8 => 57,
            Square::C8 => 58,
            Square::D8 => 59,
            Square::E8 => 60,
            Square::F8 => 61,
            Square::G8 => 62,
            Square::H8 => 63,
            Square::Null => 64,
        }
    }

    /// Squares are told apart by their index.
    pub proof fn lemma_idx_injective(a: Square, b: Square)
        ensures
            0 <= a.idx() <= 64,
            a.idx() == b.idx() ==> a == b,
            a == Square::Null <==> a.idx() == 64,
            Square::at(a.idx()) == a,
    {
        reveal(Square::idx);
        reveal(Square::at);
    }

    /// `at` gives the square of an index, and undoes `idx`.
    pub proof fn lemma_at(i: int)
        ensures
            Square::at(i).idx() == (if 0 <= i < 64 { i } else { 64 }),
            Square::at(i) == Square::Null <==> !(0 <= i < 64),
    {
        reveal(Square::idx);
        reveal(Square::at);
    }

    /// The square reached from this one by adding `offset` to its index: `Null`
    /// when this square is `Null` or the sum leaves the board. The sum does not
    /// look at files: a caller that steps sideways checks the file itself.
    pub open spec fn shifted(self, offset: int) -> Square {
        if self == Square::Null {
            Square::Null
        } else {
            Square::at(self.idx() + offset)
        }
    }

    /// Creates the square on the given rank and file, both counted from 0.
    /// A rank or file beyond 7 gives `Null`.
    pub fn from_rank_file(rank: u8, file: u8) -> (s: Square)
        ensures
            s == Square::at(if rank < 8 && file < 8 { rank * 8 + file } else { 64 }),
            s.idx() == (if rank < 8 && file < 8 { rank * 8 + file } else { 64 }),
    {
        proof {
            Self::lemma_at(64);
            Self::lemma_idx_injective(Square::Null, Square::Null);
        }
        if rank < 8 && file < 8 {
            Square::new(rank * 8 + file)
        } else {
            Square::Null
        }
    }

    /// Shifts the square by the given offset of its index.
    pub fn shift(self, offset: i8) -> (s: Square)
        ensures
            s == self.shifted(offset as int),
            s.idx() == (if self != Square::Null && 0 <= self.idx() + offset < 64 {
                self.idx() + offset
            } else {
                64
            }),
    {
        proof {
            Self::lemma_at(self.idx() + offset);
            Self::lemma_idx_injective(Square::Null, self);
        }
        let i: usize = self.index();
        if i >= 64 {
            return Square::Null;
        }
        let j: i16 = i as i16 + offset as i16;
        if 0 <= j && j < 64 {
            Square::new(j as u8)
        } else {
            Square::Null
        }
    }

    /// The file of the square, counted from 0 for the a-file.
    pub fn file(self) -> (f: usize)
        ensures
            f == self.idx() % 8,
    {
        self.index() % 8
    }

    /// The rank of the square, counted from 0 for the first rank; 8 for `Null`.
    pub fn rank(self) -> (r: usize)
        ensures
            r == self.idx() / 8,
    {
        self.index() / 8
    }
}

/// What the two bytes of a square's name stand for: a file letter `a` to `h`
/// followed by a rank digit `1` to `8`.
pub open spec fn square_of_name(name: Seq<u8>) -> Result<Square, ()> {
    if name.len() == 2 && 0x61 <= name[0] <= 0x68 && 0x31 <= name[1] <= 0x38 {
        Ok(Square::at((name[1] - 0x31) * 8 + (name[0] - 0x61)))
    } else {
        Err(())
    }
}

impl TryFrom<&str> for Square {
    type Error = ();

    fn try_from(value: &str) -> (r: Result<Self, Self::Error>) {
        let bytes = value.as_bytes();
        if bytes.len() != 2 {
            return Err(());
        }
        let file: u8 = bytes[0];
        let rank: u8 = bytes[1];
        if 0x61 <= file && file <= 0x68 && 0x31 <= rank && rank <= 0x38 {
            Ok(Square::from_rank_file(rank - 0x31, file - 0x61))
        } else {
            Err(())
        }
    }
}

impl TryFromSpecImpl<&str> for Square {
    open spec fn obeys_try_from_spec() -> bool {
        true
    }

    open spec fn try_from_spec(v: &str) -> Result<Self, Self::Error> {
        square_of_name(v.spec_bytes())
    }
}

impl core::ops::BitXor<u8> for Square {
    type Output = Square;

    fn bitxor(self, rhs: u8) -> (r: Square) {
        let i: usize = self.index();
        Square::new((i as u8) ^ rhs)
    }
}

impl BitXorSpecImpl<u8> for Square {
    open spec fn obeys_bitxor_spec() -> bool {
        true
    }

    open spec fn bitxor_req(self, rhs: u8) -> bool {
        true
    }

    open spec fn bitxor_spec(self, rhs: u8) -> Square {
        Square::at(((self.idx() as u8) ^ rhs) as int)
    }
}

impl Default for Square {
    fn default() -> (s: Square)
        ensures
            s == Square::Null,
    {
        Square::Null
    }
}

} // verus!
