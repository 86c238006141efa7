use vstd::prelude::*;
use vstd::std_specs::convert::TryFromSpecImpl;

verus! {

/// A rank of the board, `R1` nearest to white.
#[derive(Copy, Clone, PartialEq, Eq, Structural, PartialOrd, Ord, Debug)]
pub enum Rank {
    R1,
    R2,
    R3,
    R4,
    R5,
    R6,
    R7,
    R8,
}

impl Rank {
    /// The number of ranks.
    pub const NUM: usize = 8;

    /// The position of the rank, counted from 0.
    pub open spec fn idx(self) -> int {
        match self {
            Rank::R1 => 0,
            Rank::R2 => 1,
            Rank::R3 => 2,
            Rank::R4 => 3,
            Rank::R5 => 4,
            Rank::R6 => 5,
            Rank::R7 => 6,
            Rank::R8 => 7,
        }
    }

    /// The rank at the given position, if there is one.
    pub open spec fn at(i: int) -> Option<Rank> {
        if i == 0 {
            Some(Rank::R1)
        } else if i == 1 {
            Some(Rank::R2)
        } else if i == 2 {
            Some(Rank::R3)
        } else if i == 3 {
            Some(Rank::R4)
        } else if i == 4 {
            Some(Rank::R5)
        } else if i == 5 {
            Some(Rank::R6)
        } else if i == 6 {
            Some(Rank::R7)
        } else if i == 7 {
            Some(Rank::R8)
        } else {
            None
        }
    }

    /// The name of the rank.
    pub open spec fn name(self) -> Seq<char> {
        match self {
            Rank::R1 => "1"@,
            Rank::R2 => "2"@,
            Rank::R3 => "3"@,
            Rank::R4 => "4"@,
            Rank::R5 => "5"@,
            Rank::R6 => "6"@,
            Rank::R7 => "7"@,
            Rank::R8 => "8"@,
        }
    }

    /// Creates the rank at the given position, and refuses a position beyond 7.
    pub fn new(value: u8) -> (r: Result<Rank, RankError>)
        ensures
            r == (match Rank::at(value as int) {
                Some(x) => Ok::<Rank, RankError>(x),
                None => Err(RankError::NoRankForByte),
            }),
            r is Ok <==> value < 8,
            r matches Ok(x) ==> x.idx() == value,
    {
        match value {
            0 => Ok(Rank::R1),
            1 => Ok(Rank::R2),
            2 => Ok(Rank::R3),
            3 => Ok(Rank::R4),
            4 => Ok(Rank::R5),
            5 => Ok(Rank::R6),
            6 => Ok(Rank::R7),
            7 => Ok(Rank::R8),
            _ => Err(RankError::NoRankForByte),
        }
    }

    /// The position of the rank, counted from 0.
    pub fn index(self) -> (i: usize)
        ensures
            i == self.idx(),
            i < 8,
    {
        match self {
            Rank::R1 => 0,
            Rank::R2 => 1,
            Rank::R3 => 2,
            Rank::R4 => 3,
            Rank::R5 => 4,
            Rank::R6 => 5,
            Rank::R7 => 6,
            Rank::R8 => 7,
        }
    }

    /// How many ranks lie between this one and the other, counting one end.
    pub fn distance(self, rhs: Rank) -> (d: usize)
        ensures
            d == (if self.idx() >= rhs.idx() {
                self.idx() - rhs.idx()
            } else {
                rhs.idx() - self.idx()
            }),
    {
        let a: usize = self.index();
        let b: usize = rhs.index();
        if a >= b {
            a - b
        } else {
            b - a
        }
    }

    /// The name of the rank.
    pub fn to_string(&self) -> (s: String)
        ensures
            s@ == self.name(),
    {
        match self {
            Rank::R1 => String::from_str("1"),
            Rank::R2 => String::from_str("2"),
            Rank::R3 => String::from_str("3"),
            Rank::R4 => String::from_str("4"),
            Rank::R5 => String::from_str("5"),
            Rank::R6 => String::from_str("6"),
            Rank::R7 => String::from_str("7"),
            Rank::R8 => String::from_str("8"),
        }
    }
}

/// Why a byte names no rank.
#[derive(Copy, Clone, PartialEq, Eq, Structural, Debug)]
pub enum RankError {
    NoRankForByte,
}

/// Why a byte names no file.
#[derive(Copy, Clone, PartialEq, Eq, Structural, Debug)]
pub enum FileError {
    NoFileForByte,
}

/// A file of the board, `A` on white's left.
#[derive(Copy, Clone, PartialEq, Eq, Structural, PartialOrd, Ord, Debug)]
pub enum File {
    A,
    B,
    C,
    D,
    E,
    F,
    G,
    H,
}

impl File {
    /// The number of files.
    pub const NUM: usize = 8;

    /// The position of the file, counted from 0.
    pub open spec fn idx(self) -> int {
        match self {
            File::A => 0,
            File::B => 1,
            File::C => 2,
            File::D => 3,
            File::E => 4,
            File::F => 5,
            File::G => 6,
            File::H => 7,
        }
    }

    /// The file at the given position, if there is one.
    pub open spec fn at(i: int) -> Option<File> {
        if i == 0 {
            Some(File::A)
        } else if i == 1 {
            Some(File::B)
        } else if i == 2 {
            Some(File::C)
        } else if i == 3 {
            Some(File::D)
        } else if i == 4 {
            Some(File::E)
        } else if i == 5 {
            Some(File::F)
        } else if i == 6 {
            Some(File::G)
        } else if i == 7 {
            Some(File::H)
        } else {
            None
        }
    }

    /// The name of the file.
    pub open spec fn name(self) -> Seq<char> {
        match self {
            File::A => "a"@,
            File::B => "b"@,
            File::C => "c"@,
            File::D => "d"@,
            File::E => "e"@,
            File::F => "f"@,
            File::G => "g"@,
            File::H => "h"@,
        }
    }

    /// Creates the file at the given position, and refuses a position beyond 7.
    pub fn new(value: u8) -> (r: Result<File, FileError>)
        ensures
            r == (match File::at(value as int) {
                Some(x) => Ok::<File, FileError>(x),
                None => Err(FileError::NoFileForByte),
            }),
            r is Ok <==> value < 8,
            r matches Ok(x) ==> x.idx() == value,
    {
        match value {
            0 => Ok(File::A),
            1 => Ok(File::B),
            2 => Ok(File::C),
            3 => Ok(File::D),
            4 => Ok(File::E),
            5 => Ok(File::F),
            6 => Ok(File::G),
            7 => Ok(File::H),
            _ => Err(FileError::NoFileForByte),
        }
    }

    /// The position of the file, counted from 0.
    pub fn index(self) -> (i: usize)
        ensures
            i == self.idx(),
            i < 8,
    {
        match self {
            File::A => 0,
            File::B => 1,
            File::C => 2,
            File::D => 3,
            File::E => 4,
            File::F => 5,
            File::G => 6,
            File::H => 7,
        }
    }

    /// How many files lie between this one and the other, counting one end.
    pub fn distance(self, rhs: File) -> (d: usize)
        ensures
            d == (if self.idx() >= rhs.idx() {
                self.idx() - rhs.idx()
            } else {
                rhs.idx() - self.idx()
            }),
    {
        let a: usize = self.index();
        let b: usize = rhs.index();
        if a >= b {
            a - b
        } else {
            b - a
        }
    }

    /// The name of the file.
    pub fn to_string(&self) -> (s: String)
        ensures
            s@ == self.name(),
    {
        match self {
            File::A => String::from_str("a"),
            File::B => String::from_str("b"),
            File::C => String::from_str("c"),
            File::D => String::from_str("d"),
            File::E => String::from_str("e"),
            File::F => String::from_str("f"),
            File::G => String::from_str("g"),
            File::H => String::from_str("h"),
        }
    }
}

/// The file that a lower-case letter `a` to `h` names.
pub open spec fn file_of_byte(value: u8) -> Result<File, FileError> {
    match File::at(value - 0x61) {
        Some(f) => Ok(f),
        None => Err(FileError::NoFileForByte),
    }
}

impl TryFrom<u8> for File {
    type Error = FileError;

    fn try_from(value: u8) -> (r: Result<Self, Self::Error>) {
        if value < 0x61 {
            return Err(FileError::NoFileForByte);
        }
        File::new(value - 0x61)
    }
}

impl TryFromSpecImpl<u8> for File {
    open spec fn obeys_try_from_spec() -> bool {
        true
    }

    open spec fn try_from_spec(v: u8) -> Result<Self, Self::Error> {
        file_of_byte(v)
    }
}

} // verus!
