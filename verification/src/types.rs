pub mod bitboard;
pub mod castling;
pub mod color;
pub mod movelist;
pub mod moves;
pub mod piece;
pub mod rankfile;
pub mod square;

pub use bitboard::Bitboard;
pub use castling::Castling;
pub use castling::CastlingKind;
pub use color::Color;
pub use movelist::MoveList;
pub use moves::FullMove;
pub use moves::Move;
pub use moves::MoveType;
pub use piece::Piece;
pub use rankfile::File;
pub use rankfile::FileError;
pub use rankfile::Rank;
pub use rankfile::RankError;
pub use square::Square;
