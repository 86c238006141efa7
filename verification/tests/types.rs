use chess_rules::types::bitboard::Bitboard;
use chess_rules::types::castling::Castling;
use chess_rules::types::castling::CastlingKind;
use chess_rules::types::color::Color;
use chess_rules::types::movelist::MoveList;
use chess_rules::types::moves::Move;
use chess_rules::types::moves::MoveType;
use chess_rules::types::piece::Piece;
use chess_rules::types::rankfile::File;
use chess_rules::types::rankfile::FileError;
use chess_rules::types::rankfile::Rank;
use chess_rules::types::rankfile::RankError;
use chess_rules::types::square::Square;

#[test]
fn square_index_and_back() {
    for i in 0..64u8 {
        assert_eq!(Square::new(i).index(), i as usize);
    }
    assert_eq!(Square::new(64), Square::Null);
    assert_eq!(Square::new(200), Square::Null);
    assert_eq!(Square::H8.index(), 63);
    assert_eq!(Square::Null.index(), 64);
}

#[test]
fn square_shift_leaves_the_board() {
    assert_eq!(Square::H8.shift(1), Square::Null);
    assert_eq!(Square::A1.shift(-1), Square::Null);
    assert_eq!(Square::Null.shift(-1), Square::Null);
    assert_eq!(Square::E2.shift(16), Square::E4);
    assert_eq!(Square::E7.shift(-16), Square::E5);
    assert_eq!(Square::H1.shift(1), Square::A2);
}

#[test]
fn square_rank_and_file() {
    assert_eq!(Square::from_rank_file(0, 0), Square::A1);
    assert_eq!(Square::from_rank_file(7, 7), Square::H8);
    assert_eq!(Square::from_rank_file(3, 4), Square::E4);
    assert_eq!(Square::from_rank_file(8, 0), Square::Null);
    assert_eq!(Square::from_rank_file(0, 8), Square::Null);
    assert_eq!(Square::E4.file(), 4);
    assert_eq!(Square::E4.rank(), 3);
}

#[test]
fn square_names() {
    assert_eq!(Square::try_from("h8"), Ok(Square::H8));
    assert_eq!(Square::try_from("e4"), Ok(Square::E4));
    assert_eq!(Square::try_from("-"), Err(()));
    assert_eq!(Square::try_from("i1"), Err(()));
    assert_eq!(Square::try_from("a9"), Err(()));
    assert_eq!(Square::try_from("a1 "), Err(()));
    assert_eq!(Square::E4.to_string(), "e4");
    assert_eq!(Square::A1.to_string(), "a1");
    assert_eq!(Square::H8.to_string(), "h8");
    assert_eq!(Square::Null.to_string(), "");
    assert_eq!(Square::default(), Square::Null);
}

#[test]
fn square_xor_flips_bits_of_the_index() {
    assert_eq!(Square::A1 ^ 56, Square::A8);
    assert_eq!(Square::E1 ^ 7, Square::D1);
    assert_eq!(Square::A1 ^ 64, Square::Null);
}

#[test]
fn bitboard_set_clear_count() {
    let mut b = Bitboard(0);
    assert!(b.is_empty());
    b.set(Square::A1);
    b.set(Square::H8);
    b.set(Square::E4);
    b.set(Square::Null);
    assert_eq!(b, Bitboard(1 | (1 << 28) | (1 << 63)));
    assert_eq!(b.count(), 3);
    b.clear(Square::E4);
    b.clear(Square::Null);
    assert_eq!(b, Bitboard(1 | (1 << 63)));
    assert_eq!(b.count(), 2);
    assert_eq!(Bitboard(u64::MAX).count(), 64);
    assert_eq!(Bitboard(0).count(), 0);
}

#[test]
fn bitboard_pop_gives_squares_in_order() {
    let mut b = Bitboard((1 << 5) | (1 << 17) | (1 << 63));
    assert_eq!(b.lsb(), Square::F1);
    assert_eq!(b.pop(), Square::F1);
    assert_eq!(b.pop(), Square::B3);
    assert_eq!(b.pop(), Square::H8);
    assert!(b.is_empty());
    assert_eq!(b.pop(), Square::Null);
    assert_eq!(b.lsb(), Square::Null);
    assert!(b.is_empty());
    assert_eq!(
        Bitboard((1 << 5) | (1 << 17) | (1 << 63)).to_vec(),
        vec![Square::F1, Square::B3, Square::H8]
    );
}

#[test]
fn bitboard_ranks_and_files() {
    assert_eq!(Bitboard::rank(Rank::R1), Bitboard(0xff));
    assert_eq!(Bitboard::rank(Rank::R8), Bitboard(0xff00_0000_0000_0000));
    assert_eq!(Bitboard::file(File::A), Bitboard(0x0101_0101_0101_0101));
    assert_eq!(Bitboard::file(File::H), Bitboard(0x8080_8080_8080_8080));
    assert_eq!(Bitboard::from(File::B), Bitboard(0x0202_0202_0202_0202));
    assert_eq!(Bitboard::from(Rank::R2), Bitboard(0xff00));
    assert_eq!(Bitboard::from(Square::B1), Bitboard(2));
    assert_eq!(Bitboard::from(Square::Null), Bitboard(0));
    assert_eq!(Bitboard::universal(), Bitboard(u64::MAX));
    assert_eq!(Bitboard::default(), Bitboard(0));
}

#[test]
fn bitboard_operators() {
    let a = Bitboard(0b1100);
    let b = Bitboard(0b1010);
    assert_eq!(a & b, Bitboard(0b1000));
    assert_eq!(a | b, Bitboard(0b1110));
    assert_eq!(a ^ b, Bitboard(0b0110));
    assert_eq!(!a, Bitboard(!0b1100u64));
    assert_eq!(a + b, Bitboard(0b10110));
    assert_eq!(a - b, Bitboard(0b0010));
    assert_eq!(a * Bitboard(2), Bitboard(0b11000));
    let mut c = a;
    c &= b;
    assert_eq!(c, Bitboard(0b1000));
    c |= a;
    assert_eq!(c, Bitboard(0b1100));
    c ^= b;
    assert_eq!(c, Bitboard(0b0110));
}

#[test]
fn move_encoding() {
    let m = Move::new(Square::E2, Square::E4, MoveType::DoublePawnPush);
    assert_eq!(m.0, 12 | (28 << 6) | (1 << 12));
    assert_eq!(m.start(), Square::E2);
    assert_eq!(m.target(), Square::E4);
    assert_eq!(m.kind(), MoveType::DoublePawnPush);
    assert!(m.is_double_pawn_push());
    assert!(!m.is_capture());
    assert!(!m.is_castling());
    assert!(!m.is_en_passant());
    assert!(!m.is_promotion());
    let far = Move::new(Square::H8, Square::H7, MoveType::PromotionCaptureToQueen);
    assert_eq!(far.0, 0xffff - (8 << 6));
    assert_eq!(far.start(), Square::H8);
    assert_eq!(far.target(), Square::H7);
    assert_eq!(far.kind(), MoveType::PromotionCaptureToQueen);
    assert_eq!(far.promo_piece(), Piece::Queen);
    assert_eq!(Move::default(), Move(0));
}

#[test]
fn capture_is_bit_two_of_the_kind() {
    let kinds = [
        (MoveType::Quiet, 0, false, false),
        (MoveType::DoublePawnPush, 1, false, false),
        (MoveType::KingsideCastle, 2, false, false),
        (MoveType::QueensideCastle, 3, false, false),
        (MoveType::Capture, 4, true, false),
        (MoveType::EnPassant, 5, true, false),
        (MoveType::PromotionToKnight, 8, false, true),
        (MoveType::PromotionToBishop, 9, false, true),
        (MoveType::PromotionToRook, 10, false, true),
        (MoveType::PromotionToQueen, 11, false, true),
        (MoveType::PromotionCaptureToKnight, 12, true, true),
        (MoveType::PromotionCaptureToBishop, 13, true, true),
        (MoveType::PromotionCaptureToRook, 14, true, true),
        (MoveType::PromotionCaptureToQueen, 15, true, true),
    ];
    for (kind, tag, capture, promotion) in kinds {
        let m = Move::new(Square::A2, Square::B3, kind);
        assert_eq!(kind.bits(), tag);
        assert_eq!(MoveType::from_bits(tag), kind);
        assert_eq!(m.kind(), kind);
        assert_eq!(m.is_capture(), capture);
        assert_eq!(m.is_promotion(), promotion);
        assert_eq!(m.is_en_passant(), kind == MoveType::EnPassant);
        assert_eq!(
            m.is_castling(),
            kind == MoveType::KingsideCastle || kind == MoveType::QueensideCastle
        );
    }
    assert_eq!(Move(6 << 12).kind(), MoveType::Capture);
    assert_eq!(Move(7 << 12).kind(), MoveType::Capture);
    assert!(Move(6 << 12).is_capture());
}

#[test]
fn castling_rights_are_revoked_by_both_squares() {
    let mut c = Castling::from("KQkq");
    assert_eq!(c.raw, 15);
    assert!(c.is_allowed(CastlingKind::WhiteKingside));
    assert!(c.is_allowed(CastlingKind::BlackQueenside));
    c.update(Square::E2, Square::E4);
    assert_eq!(c.raw, 15);
    c.update(Square::H1, Square::H5);
    assert_eq!(c.raw, 14);
    assert!(!c.is_allowed(CastlingKind::WhiteKingside));
    assert!(c.is_allowed(CastlingKind::WhiteQueenside));
    c.update(Square::B7, Square::A8);
    assert_eq!(c.raw, 6);
    assert!(!c.is_allowed(CastlingKind::BlackQueenside));
    assert!(c.is_allowed(CastlingKind::BlackKingside));
    c.update(Square::E1, Square::E2);
    assert_eq!(c.raw, 4);
    c.update(Square::E8, Square::Null);
    assert_eq!(c.raw, 0);
    assert_eq!(Castling::from("-").raw, 0);
    assert_eq!(Castling::from("Kq").raw, 9);
    assert_eq!(Castling::default().raw, 0);
}

#[test]
fn castling_kinds_have_their_constants() {
    assert_eq!(CastlingKind::WhiteKingside.mask(), 1);
    assert_eq!(CastlingKind::WhiteQueenside.mask(), 2);
    assert_eq!(CastlingKind::BlackKingside.mask(), 4);
    assert_eq!(CastlingKind::BlackQueenside.mask(), 8);
    assert_eq!(CastlingKind::WhiteKingside.path_mask(), Bitboard((1 << 5) | (1 << 6)));
    assert_eq!(
        CastlingKind::WhiteQueenside.path_mask(),
        Bitboard((1 << 1) | (1 << 2) | (1 << 3))
    );
    assert_eq!(CastlingKind::BlackKingside.path_mask(), Bitboard((1 << 61) | (1 << 62)));
    assert_eq!(
        CastlingKind::BlackQueenside.path_mask(),
        Bitboard((1 << 57) | (1 << 58) | (1 << 59))
    );
    assert_eq!(
        CastlingKind::WhiteQueenside.check_squares(),
        [Square::E1, Square::D1, Square::C1]
    );
    assert_eq!(
        CastlingKind::BlackKingside.castling_move(),
        Move::new(Square::E8, Square::G8, MoveType::KingsideCastle)
    );
}

#[test]
fn move_list_keeps_order() {
    let mut list = MoveList::default();
    assert_eq!(list.len(), 0);
    list.push(Move(7));
    list.add(Square::A1, Square::A2, MoveType::Quiet);
    list.add_many(Square::B1, Bitboard((1 << 16) | (1 << 18)), MoveType::Capture);
    assert_eq!(list.len(), 4);
    assert_eq!(list.get(0), Move(7));
    assert_eq!(list.get(1), Move::new(Square::A1, Square::A2, MoveType::Quiet));
    assert_eq!(list.get(2), Move::new(Square::B1, Square::A3, MoveType::Capture));
    assert_eq!(list.get(3), Move::new(Square::B1, Square::C3, MoveType::Capture));
    assert_eq!(list.clone().moves, list.moves);
}

#[test]
fn pieces_colors_ranks_files() {
    assert_eq!(Piece::new(0), Piece::Pawn);
    assert_eq!(Piece::new(5), Piece::King);
    assert_eq!(Piece::new(6), Piece::Empty);
    assert_eq!(Piece::new(99), Piece::Empty);
    assert_eq!(Piece::Queen.index(), 4);
    assert_eq!(Piece::try_from('n'), Ok(Piece::Knight));
    assert_eq!(Piece::try_from('K'), Ok(Piece::King));
    assert_eq!(Piece::try_from('x'), Err(()));
    assert_eq!(!Color::White, Color::Black);
    assert_eq!(Color::Black.opponent(), Color::White);
    assert_eq!(Color::White.index(), 0);
    assert_eq!(Color::Black.to_string(), "Black");
    assert_eq!(Rank::new(0), Ok(Rank::R1));
    assert_eq!(Rank::new(7), Ok(Rank::R8));
    assert_eq!(Rank::new(8), Err(RankError::NoRankForByte));
    assert_eq!(Rank::R3.distance(Rank::R7), 4);
    assert_eq!(Rank::R7.distance(Rank::R3), 4);
    assert_eq!(Rank::R8.to_string(), "8");
    assert_eq!(File::new(0), Ok(File::A));
    assert_eq!(File::new(7), Ok(File::H));
    assert_eq!(File::new(8), Err(FileError::NoFileForByte));
    assert_eq!(File::C.index(), 2);
    assert_eq!(File::A.distance(File::H), 7);
    assert_eq!(File::D.to_string(), "d");
    assert_eq!(File::try_from(b'a'), Ok(File::A));
    assert_eq!(File::try_from(b'h'), Ok(File::H));
    assert_eq!(File::try_from(b'i'), Err(FileError::NoFileForByte));
    assert_eq!(File::try_from(b'A'), Err(FileError::NoFileForByte));
}
