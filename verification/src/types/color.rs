use vstd::prelude::*;
use vstd::std_specs::ops::NotSpecImpl;

verus! {

/// The two sides of a game.
#[derive(Copy, Clone, PartialEq, Eq, Structural, Debug)]
pub enum Color {
    White,
    Black,
}

impl Color {
    /// The number of sides.
    pub const NUM: usize = 2;

    /// 0 for white, 1 for black.
    pub open spec fn idx(self) -> int {
        match self {
            Color::White => 0,
            Color::Black => 1,
        }
    }

    /// The other side.
    pub open spec fn other(self) -> Color {
        match self {
            Color::White => Color::Black,
            Color::Black => Color::White,
        }
    }

    /// 0 for white, 1 for black.
    pub fn index(self) -> (i: usize)
        ensures
            i == self.idx(),
    {
        match self {
            Color::White => 0,
            Color::Black => 1,
        }
    }

    /// The other side.
    pub fn opponent(self) -> (c: Color)
        ensures
            c == self.other(),
    {
        match self {
            Color::White => Color::Black,
            Color::Black => Color::White,
        }
    }

    /// The name of the side, as shown to a player.
    pub fn to_string(&self) -> (s: String)
        ensures
            s@ == (match *self {
                Color::White => "White"@,
                Color::Black => "Black"@,
            }),
    {
        match self {
            Color::White => String::from_str("White"),
            Color::Black => String::from_str("Black"),
        }
    }
}

impl core::ops::Not for Color {
    type Output = Color;

    fn not(self) -> (r: Color) {
        match self {
            Color::White => Color::Black,
            Color::Black => Color::White,
        }
    }
}

impl NotSpecImpl for Color {
    open spec fn obeys_not_spec() -> bool {
        true
    }

    open spec fn not_req(self) -> bool {
        true
    }

    open spec fn not_spec(self) -> Color {
        self.other()
    }
}

} // verus!
