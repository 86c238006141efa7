//! The rules of chess as a verified library: a position with its bitboards
//! and its record of the squares, the squares that each piece attacks, checks
//! and pins, the list of legal moves, and making and taking back a move.
//!
//! Every executable function states what it returns over a mathematical model
//! of its data: a set of squares is a `u64` whose bit `i` stands for the square
//! of index `i`, and a `Board` is viewed as its `Position`. The proof functions
//! state what holds across functions: a legal move never ends on a friendly
//! piece, two checks leave king moves only, castling is safe, and a legal move
//! made and taken back leaves a sound position as it was.

pub mod bits;
pub mod board;
pub mod fold;
pub mod tools;
pub mod types;
pub mod uci;
