use chess_rules::board::moveboards::generate_bishop_moves;
use chess_rules::board::moveboards::generate_queen_moves;
use chess_rules::board::moveboards::generate_rook_moves;
use chess_rules::board::moveboards::ray_bitboard;
use chess_rules::board::movegen::distance;
use chess_rules::board::movegen::generate_betweeners;
use chess_rules::board::movegen::generate_bishop_attacks;
use chess_rules::board::movegen::generate_king_moves;
use chess_rules::board::movegen::generate_knight_moves;
use chess_rules::board::movegen::generate_queen_attacks;
use chess_rules::board::movegen::generate_rook_attacks;
use chess_rules::board::movegen::black_pawn_advances;
use chess_rules::board::movegen::create_map;
use chess_rules::board::movegen::pawn_captures;
use chess_rules::board::movegen::safe_destination;
use chess_rules::board::movegen::sliding_attack;
use chess_rules::board::movegen::test_bit;
use chess_rules::board::movegen::white_pawn_advances;
use chess_rules::board::movegen::StandardBitboards;
use chess_rules::board::parser::FenParseErr;
use chess_rules::board::Board;
use chess_rules::board::CheckState;
use chess_rules::tools::perft::perft;
use chess_rules::types::bitboard::Bitboard;
use chess_rules::types::castling::CastlingKind;
use chess_rules::types::color::Color;
use chess_rules::types::movelist::MoveList;
use chess_rules::types::moves::Move;
use chess_rules::types::moves::MoveType;
use chess_rules::types::piece::Piece;
use chess_rules::types::square::Square;
use chess_rules::uci::collect_algebraic_moves;
use chess_rules::uci::move_to_full;
use chess_rules::uci::AlgebraicMove;

const START: &str = "rnbqkbnr/pppppppp/8/8/8/8/PPPPPPPP/RNBQKBNR w KQkq - 0 1";
const KIWIPETE: &str = "r3k2r/p1ppqpb1/bn2pnp1/3PN3/1p2P3/2N2Q1p/PPPBBPPP/R3K2R w KQkq - 0 1";

fn set(squares: &[Square]) -> Bitboard {
    let mut b = Bitboard(0);
    for s in squares {
        b.set(*s);
    }
    b
}

fn board(fen: &str) -> Board {
    match Board::new(fen.to_string()) {
        Ok(b) => b,
        Err(e) => panic!("{}", e.to_string()),
    }
}

fn moves(b: &Board) -> Vec<Move> {
    (0..b.legal_moves.len()).map(|i| b.legal_moves.get(i)).collect()
}

fn same_position(a: &Board, b: &Board) {
    assert_eq!(a.side_to_move, b.side_to_move);
    assert_eq!(a.state, b.state);
    assert_eq!(a.colors, b.colors);
    assert_eq!(a.pieces, b.pieces);
    assert_eq!(a.mailbox, b.mailbox);
    assert_eq!(a.checking_state, b.checking_state);
    assert_eq!(a.pinning_state, b.pinning_state);
    assert_eq!(a.legal_moves.moves, b.legal_moves.moves);
    assert_eq!(a.state_stack, b.state_stack);
    assert_eq!(a.move_stack, b.move_stack);
}

#[test]
fn knight_and_king_tables() {
    assert_eq!(generate_knight_moves(Square::A1), set(&[Square::B3, Square::C2]));
    assert_eq!(
        generate_knight_moves(Square::E4),
        set(&[
            Square::D2,
            Square::F2,
            Square::C3,
            Square::G3,
            Square::C5,
            Square::G5,
            Square::D6,
            Square::F6
        ])
    );
    assert_eq!(generate_knight_moves(Square::H8), set(&[Square::F7, Square::G6]));
    assert_eq!(generate_knight_moves(Square::Null), Bitboard(0));
    assert_eq!(
        generate_king_moves(Square::A1),
        set(&[Square::A2, Square::B1, Square::B2])
    );
    assert_eq!(
        generate_king_moves(Square::H4),
        set(&[Square::H3, Square::H5, Square::G3, Square::G4, Square::G5])
    );
    assert_eq!(generate_king_moves(Square::E4).count(), 8);
    let table = create_map(generate_knight_moves);
    assert_eq!(table[0], set(&[Square::B3, Square::C2]));
    assert_eq!(table[63], set(&[Square::F7, Square::G6]));
}

#[test]
fn pawn_attacks_and_advances() {
    assert_eq!(pawn_captures(Square::A2, Color::White), set(&[Square::B3]));
    assert_eq!(pawn_captures(Square::E4, Color::White), set(&[Square::D5, Square::F5]));
    assert_eq!(pawn_captures(Square::H7, Color::Black), set(&[Square::G6]));
    assert_eq!(pawn_captures(Square::E4, Color::Black), set(&[Square::D3, Square::F3]));
    assert_eq!(pawn_captures(Square::E8, Color::White), Bitboard(0));
    assert_eq!(
        white_pawn_advances(&Square::E2, &Bitboard(0)),
        set(&[Square::E3, Square::E4])
    );
    assert_eq!(white_pawn_advances(&Square::E2, &set(&[Square::E3])), Bitboard(0));
    assert_eq!(
        white_pawn_advances(&Square::E2, &set(&[Square::E4])),
        set(&[Square::E3])
    );
    assert_eq!(white_pawn_advances(&Square::E3, &Bitboard(0)), set(&[Square::E4]));
    assert_eq!(white_pawn_advances(&Square::E8, &Bitboard(0)), Bitboard(0));
    assert_eq!(
        black_pawn_advances(&Square::D7, &Bitboard(0)),
        set(&[Square::D6, Square::D5])
    );
    assert_eq!(black_pawn_advances(&Square::D6, &Bitboard(0)), set(&[Square::D5]));
    assert_eq!(black_pawn_advances(&Square::D1, &Bitboard(0)), Bitboard(0));
}

#[test]
fn rays_stop_on_the_first_occupied_square() {
    let empty = Bitboard(0);
    assert_eq!(
        sliding_attack(&Square::A1, &empty, 1),
        set(&[
            Square::B1,
            Square::C1,
            Square::D1,
            Square::E1,
            Square::F1,
            Square::G1,
            Square::H1
        ])
    );
    assert_eq!(
        sliding_attack(&Square::A1, &set(&[Square::D1]), 1),
        set(&[Square::B1, Square::C1, Square::D1])
    );
    assert_eq!(sliding_attack(&Square::H1, &empty, 1), Bitboard(0));
    assert_eq!(sliding_attack(&Square::A2, &empty, -1), Bitboard(0));
    assert_eq!(sliding_attack(&Square::H4, &empty, 9), Bitboard(0));
    assert_eq!(
        sliding_attack(&Square::F6, &empty, 9),
        set(&[Square::G7, Square::H8])
    );
    assert_eq!(
        sliding_attack(&Square::C3, &empty, -9),
        set(&[Square::B2, Square::A1])
    );
    assert_eq!(
        sliding_attack(&Square::B2, &empty, 7),
        set(&[Square::A3])
    );
    assert_eq!(
        sliding_attack(&Square::E4, &set(&[Square::E6]), 8),
        set(&[Square::E5, Square::E6])
    );
    assert_eq!(sliding_attack(&Square::E4, &empty, 0), Bitboard(0));
    assert!(safe_destination(&Square::E4, 8));
    assert!(safe_destination(&Square::E4, 0));
    assert!(!safe_destination(&Square::H4, 1));
    assert!(!safe_destination(&Square::A4, -1));
    assert!(!safe_destination(&Square::E8, 8));
    assert!(!safe_destination(&Square::Null, -1));
    assert_eq!(distance(&Square::A1, &Square::H8), 7);
    assert_eq!(distance(&Square::E4, &Square::F6), 2);
    assert_eq!(distance(&Square::H4, &Square::A5), 7);
    assert!(test_bit(5, 0));
    assert!(!test_bit(5, 1));
    assert!(!test_bit(u64::MAX, 64));
}

#[test]
fn sliders_attack_along_their_lines() {
    let occupancy = set(&[Square::E6, Square::B4, Square::G2]);
    assert_eq!(
        generate_rook_attacks(&Square::E4, &occupancy),
        set(&[
            Square::E5,
            Square::E6,
            Square::E3,
            Square::E2,
            Square::E1,
            Square::F4,
            Square::G4,
            Square::H4,
            Square::D4,
            Square::C4,
            Square::B4
        ])
    );
    assert_eq!(
        generate_bishop_attacks(&Square::E4, &occupancy),
        set(&[
            Square::F5,
            Square::G6,
            Square::H7,
            Square::D3,
            Square::C2,
            Square::B1,
            Square::D5,
            Square::C6,
            Square::B7,
            Square::A8,
            Square::F3,
            Square::G2
        ])
    );
    assert_eq!(
        generate_queen_attacks(&Square::E4, &occupancy),
        generate_rook_attacks(&Square::E4, &occupancy)
            | generate_bishop_attacks(&Square::E4, &occupancy)
    );
    assert_eq!(generate_rook_attacks(&Square::A1, &Bitboard(0)).count(), 14);
    assert_eq!(generate_bishop_attacks(&Square::A1, &Bitboard(0)).count(), 7);
    assert_eq!(generate_queen_attacks(&Square::D4, &Bitboard(0)).count(), 27);
}

#[test]
fn walks_with_a_test_of_the_arrival() {
    let occupancy = set(&[Square::E6, Square::B4, Square::G2]);
    for index in 0..64u8 {
        let square = Square::new(index);
        assert_eq!(
            generate_rook_moves(&square, &occupancy),
            generate_rook_attacks(&square, &occupancy)
        );
        assert_eq!(
            generate_bishop_moves(&square, &occupancy),
            generate_bishop_attacks(&square, &occupancy)
        );
        assert_eq!(
            generate_queen_moves(&square, &occupancy),
            generate_queen_attacks(&square, &occupancy)
        );
    }
    assert_eq!(
        ray_bitboard(&Square::A1, &Bitboard(0), 9, |s: Square| s != Square::D4),
        set(&[Square::B2, Square::C3])
    );
    assert_eq!(
        ray_bitboard(&Square::A1, &set(&[Square::B2]), 9, |_| true),
        set(&[Square::B2])
    );
    assert_eq!(
        ray_bitboard(&Square::G1, &Bitboard(0), 1, |_| true),
        set(&[
            Square::H1,
            Square::A2,
            Square::B2,
            Square::C2,
            Square::D2,
            Square::E2,
            Square::F2,
            Square::G2,
            Square::H2
        ]) | Bitboard(0xffff_ffff_ffff_0000)
    );
    assert_eq!(ray_bitboard(&Square::A1, &Bitboard(0), 0, |_| true), Bitboard(0));
    assert_eq!(ray_bitboard(&Square::Null, &Bitboard(0), -1, |_| true), Bitboard(0));
    assert_eq!(ray_bitboard(&Square::A1, &Bitboard(0), 1, |_| false), Bitboard(0));
}

#[test]
fn squares_between() {
    let between = generate_betweeners();
    assert_eq!(
        between[0][63],
        set(&[
            Square::B2,
            Square::C3,
            Square::D4,
            Square::E5,
            Square::F6,
            Square::G7
        ])
    );
    assert_eq!(between[63][0], between[0][63]);
    assert_eq!(between[4][6], set(&[Square::F1]));
    assert_eq!(between[4][2], set(&[Square::D1]));
    assert_eq!(between[60][62], set(&[Square::F8]));
    assert_eq!(between[60][58], set(&[Square::D8]));
    assert_eq!(between[12][28], set(&[Square::E3]));
    assert_eq!(between[0][17], Bitboard(0));
    assert_eq!(between[0][1], Bitboard(0));
    assert_eq!(between[0][0], Bitboard(0));
    assert_eq!(between[7][56].count(), 6);
    assert_eq!(between[63][7].count(), 6);
    let tables = StandardBitboards::new();
    assert_eq!(tables.between_of(Square::E1, Square::E8).count(), 6);
    assert_eq!(tables.between_of(Square::E1, Square::Null), Bitboard(0));
    assert_eq!(tables.knight_attacks[0], generate_knight_moves(Square::A1));
    assert_eq!(tables.king_attacks[63], generate_king_moves(Square::H8));
    assert_eq!(tables.pawn_captures[0][8], set(&[Square::B3]));
    assert_eq!(tables.pawn_captures[1][55], set(&[Square::G6]));
}

#[test]
fn board_descriptions_that_are_refused() {
    let refused = |fen: &str| match Board::new(fen.to_string()) {
        Ok(_) => panic!("accepted"),
        Err(e) => e,
    };
    assert_eq!(refused(""), FenParseErr::MissingData);
    assert_eq!(refused("   "), FenParseErr::MissingData);
    assert_eq!(refused("8/8/8/8/8/8/8/8"), FenParseErr::InvalidColor);
    assert_eq!(refused("8/8/8/8/8/8/8/8 x - - 0 1"), FenParseErr::InvalidColor);
    assert_eq!(refused("8/8/8/8/8/8/8/8 ww - - 0 1"), FenParseErr::InvalidColor);
    assert_eq!(refused("8/8/8/8/8/8/8/7x w - - 0 1"), FenParseErr::InvalidPieceType);
    assert_eq!(refused("8p/8/8/8/8/8/8/8 w - - 0 1"), FenParseErr::InvalidPieceType);
    assert_eq!(
        refused("k/8/8/8/8/8/8/8/8 w - - 0 1"),
        FenParseErr::InvalidPieceType
    );
    assert_eq!(refused("8/8/8/8/8/8/8/8 w"), FenParseErr::MissingData);
    assert_eq!(refused("8/8/8/8/8/8/8/8 w -"), FenParseErr::MissingData);
    assert_eq!(refused("8/8/8/8/8/8/8/8 w - z9 0 1"), FenParseErr::InvalidEnPassant);
    assert_eq!(refused("8/8/8/8/8/8/8/8 w - e 0 1"), FenParseErr::InvalidEnPassant);
    assert_eq!(refused("8/8/8/8/8/8/8/8 w - -"), FenParseErr::MissingData);
    assert_eq!(refused("8/8/8/8/8/8/8/8 w - - x 1"), FenParseErr::MissingData);
    assert_eq!(refused("8/8/8/8/8/8/8/8 w - - 256 1"), FenParseErr::MissingData);
    assert_eq!(refused("8/8/8/8/8/8/8/8 w - - 0"), FenParseErr::MissingData);
    assert_eq!(refused("8/8/8/8/8/8/8/8 w - - 0 65536"), FenParseErr::MissingData);
    assert_eq!(FenParseErr::MissingData.to_string(), "Missing Data");
    assert_eq!(FenParseErr::InvalidColor.to_string(), "Invalid Color");
    assert_eq!(FenParseErr::InvalidPieceType.to_string(), "Invalid Piece Type");
    assert_eq!(FenParseErr::InvalidEnPassant.to_string(), "Invalid En Passant");
}

#[test]
fn board_description_is_read() {
    let b = board("r3k2r/8/8/8/3pP3/8/8/R3K2R b Kq e3 12 34");
    assert_eq!(b.side_to_move, Color::Black);
    assert_eq!(b.state.en_passant, Square::E3);
    assert_eq!(b.state.halfmove_clock, 12);
    assert_eq!(b.state.fullmove_number, 34);
    assert_eq!(b.state.castling.raw, 1 | 8);
    assert_eq!(b.state.captured_piece, Piece::Empty);
    assert_eq!(b.piece_on(Square::A1), Piece::Rook);
    assert_eq!(b.piece_on(Square::E1), Piece::King);
    assert_eq!(b.piece_on(Square::E4), Piece::Pawn);
    assert_eq!(b.piece_on(Square::D4), Piece::Pawn);
    assert_eq!(b.piece_on(Square::E8), Piece::King);
    assert_eq!(b.piece_on(Square::E5), Piece::Empty);
    assert_eq!(b.piece_on(Square::Null), Piece::Empty);
    assert_eq!(
        b.colors[0],
        set(&[Square::A1, Square::E1, Square::H1, Square::E4])
    );
    assert_eq!(
        b.colors[1],
        set(&[Square::A8, Square::E8, Square::H8, Square::D4])
    );
    assert_eq!(b.pieces[0], set(&[Square::D4, Square::E4]));
    assert_eq!(
        b.pieces[3],
        set(&[Square::A1, Square::H1, Square::A8, Square::H8])
    );
    assert_eq!(b.our(Piece::Pawn), set(&[Square::D4]));
    assert_eq!(b.their(Piece::Pawn), set(&[Square::E4]));
    assert_eq!(b.our(Piece::Empty), Bitboard(0));
    assert!(b.state_stack.is_empty());
    assert!(b.move_stack.is_empty());
    let parsed: Board = "8/8/8/8/8/8/8/K1k5 w - - 255 65535".parse().unwrap();
    assert_eq!(parsed.state.halfmove_clock, 255);
    assert_eq!(parsed.state.fullmove_number, 65535);
    assert_eq!(parsed.legal_moves.len(), 0);
    let two_rows = board("k7/K7 w - - 0 1");
    assert_eq!(two_rows.piece_on(Square::A2), Piece::King);
    assert_eq!(two_rows.piece_on(Square::A1), Piece::King);
    assert_eq!(two_rows.colors[1], set(&[Square::A2]));
}

#[test]
fn empty_board() {
    let b = Board::default();
    assert_eq!(b.side_to_move, Color::White);
    assert_eq!(b.colors, [Bitboard(0); 2]);
    assert_eq!(b.pieces, [Bitboard(0); 6]);
    assert_eq!(b.mailbox, [Piece::Empty; 64]);
    assert_eq!(b.pinning_state, [Bitboard(u64::MAX); 64]);
    assert_eq!(b.checking_state, CheckState::default());
    assert_eq!(b.legal_moves.len(), 0);
    assert!(b.is_stalemate());
    assert!(!b.is_checkmate());
}

#[test]
fn add_and_remove_piece() {
    let mut b = Board::default();
    b.add_piece(Square::E4, Color::Black, Piece::Queen);
    assert_eq!(b.piece_on(Square::E4), Piece::Queen);
    assert_eq!(b.pieces[4], set(&[Square::E4]));
    assert_eq!(b.colors[1], set(&[Square::E4]));
    assert_eq!(b.colors[0], Bitboard(0));
    assert_eq!(b.their(Piece::Queen), set(&[Square::E4]));
    b.remove_piece(Square::E4, Color::Black, Piece::Queen);
    assert_eq!(b.piece_on(Square::E4), Piece::Empty);
    assert_eq!(b.pieces[4], Bitboard(0));
    assert_eq!(b.colors[1], Bitboard(0));
}

#[test]
fn start_position_has_twenty_moves() {
    let b = board(START);
    assert_eq!(b.legal_moves.len(), 20);
    assert!(!b.is_check());
    assert!(!b.is_checkmate());
    assert!(!b.is_stalemate());
    assert_eq!(b.checking_state.first.checking_piece, Square::Null);
    assert_eq!(b.checking_state.second.checking_piece, Square::Null);
    assert_eq!(
        b.checking_state.check_space,
        Bitboard(0x7eff_ff00_0000_0000)
    );
    let first = b.legal_moves.get(0);
    assert_eq!(first, Move::new(Square::B1, Square::A3, MoveType::Quiet));
    assert_eq!(
        b.legal_moves.get(4),
        Move::new(Square::A2, Square::A3, MoveType::Quiet)
    );
    assert_eq!(
        b.legal_moves.get(5),
        Move::new(Square::A2, Square::A4, MoveType::DoublePawnPush)
    );
}

#[test]
fn walks_from_known_positions() {
    let mut b = board(START);
    assert_eq!(perft(&mut b, 0).nodes, 1);
    assert_eq!(perft(&mut b, 1).nodes, 20);
    assert_eq!(perft(&mut b, 2).nodes, 400);
    let three = perft(&mut b, 3);
    assert_eq!(three.nodes, 8902);
    assert_eq!(three.captures, 34);
    assert_eq!(three.checks, 12);
    assert_eq!(three.checkmates, 0);
    let mut b = board("rnbq1k1r/pp1Pbppp/2p5/8/2B5/8/PPP1NnPP/RNBQK2R w KQ - 1 8");
    assert_eq!(perft(&mut b, 1).nodes, 44);
    assert_eq!(perft(&mut b, 2).nodes, 1486);
    assert_eq!(perft(&mut b, 3).nodes, 62379);
    let mut b = board("8/2p5/3p4/KP5r/1R3p1k/8/4P1P1/8 w - - 0 1");
    assert_eq!(perft(&mut b, 1).nodes, 14);
}

#[test]
fn walk_of_depth_one_counts_the_legal_moves() {
    for fen in [
        START,
        KIWIPETE,
        "4r2k/8/8/8/8/5n2/8/4K3 w - - 0 1",
        "7k/5Q2/6K1/8/8/8/8/8 b - - 0 1",
    ] {
        let mut b = board(fen);
        let before = b.clone();
        assert_eq!(perft(&mut b, 1).nodes, b.legal_moves.len() as u64);
        same_position(&b, &before);
    }
}

#[test]
fn every_legal_move_can_be_taken_back() {
    for fen in [
        START,
        KIWIPETE,
        "4k3/8/8/3pP3/8/8/8/4K3 w - d6 0 1",
        "8/P3p3/8/8/8/8/8/k6K w - - 0 1",
        "r3k2r/Pppp1ppp/1b3nbN/nP6/BBP1P3/q4N2/Pp1P2PP/R2Q1RK1 w kq - 0 1",
        "r3k2r/8/8/8/8/8/8/R3K2R b KQkq - 0 1",
    ] {
        let mut b = board(fen);
        let before = b.clone();
        for m in moves(&before) {
            b.make_move(m);
            assert_eq!(b.move_stack.len(), 1);
            assert_eq!(b.state_stack.len(), 1);
            assert_eq!(b.side_to_move, before.side_to_move.opponent());
            b.undo_move();
            same_position(&b, &before);
        }
    }
}

#[test]
fn no_move_ends_on_a_friendly_piece() {
    for fen in [START, KIWIPETE, "r3k2r/8/8/8/8/8/8/R3K2R b KQkq - 0 1"] {
        let b = board(fen);
        let ours = b.colors[b.side_to_move.index()];
        for m in moves(&b) {
            assert!((ours & Bitboard::from(m.target())).is_empty());
            assert!(!(ours & Bitboard::from(m.start())).is_empty());
        }
    }
}

#[test]
fn double_check_leaves_king_moves_only() {
    let b = board("4r2k/8/8/8/8/5n2/8/4K3 w - - 0 1");
    assert_eq!(b.checking_state.first.checking_piece, Square::F3);
    assert_eq!(b.checking_state.first.block_space, set(&[Square::F3]));
    assert_eq!(b.checking_state.second.checking_piece, Square::E8);
    assert_eq!(
        b.checking_state.second.block_space,
        set(&[
            Square::E2,
            Square::E3,
            Square::E4,
            Square::E5,
            Square::E6,
            Square::E7,
            Square::E8
        ])
    );
    assert!(b.is_check());
    assert_eq!(
        moves(&b),
        vec![
            Move::new(Square::E1, Square::D1, MoveType::Quiet),
            Move::new(Square::E1, Square::F1, MoveType::Quiet),
            Move::new(Square::E1, Square::F2, MoveType::Quiet),
        ]
    );
    let with_a_queen = board("4r2k/8/8/8/8/5n2/8/Q3K3 w - - 0 1");
    for m in moves(&with_a_queen) {
        assert_eq!(m.start(), Square::E1);
    }
}

#[test]
fn single_check_is_answered_by_capture_or_block() {
    let b = board("4r2k/8/8/8/8/8/3N4/4K3 w - - 0 1");
    assert_eq!(b.checking_state.first.checking_piece, Square::E8);
    assert_eq!(b.checking_state.second.checking_piece, Square::Null);
    assert_eq!(
        moves(&b),
        vec![
            Move::new(Square::E1, Square::D1, MoveType::Quiet),
            Move::new(Square::E1, Square::F1, MoveType::Quiet),
            Move::new(Square::E1, Square::F2, MoveType::Quiet),
            Move::new(Square::D2, Square::E4, MoveType::Quiet),
        ]
    );
}

#[test]
fn pinned_piece_stays_on_the_line() {
    let b = board("4k3/8/8/8/4r3/8/4B3/4K3 w - - 0 1");
    assert_eq!(
        b.pinning_state[Square::E2.index()],
        set(&[Square::E2, Square::E3, Square::E4])
    );
    assert_eq!(b.pinning_state[Square::E1.index()], Bitboard(u64::MAX));
    assert_eq!(b.pinning_state[Square::D2.index()], Bitboard(u64::MAX));
    for m in moves(&b) {
        assert_eq!(m.start(), Square::E1);
    }
    assert_eq!(b.legal_moves.len(), 4);
    let rook = board("4k3/8/8/8/4r3/8/4R3/4K3 w - - 0 1");
    let rook_moves: Vec<Move> = moves(&rook)
        .into_iter()
        .filter(|m| m.start() == Square::E2)
        .collect();
    assert_eq!(
        rook_moves,
        vec![
            Move::new(Square::E2, Square::E3, MoveType::Quiet),
            Move::new(Square::E2, Square::E4, MoveType::Capture),
        ]
    );
    let shielded = board("4k3/8/8/8/4r3/4p3/4B3/4K3 w - - 0 1");
    assert_eq!(shielded.pinning_state[Square::E2.index()], Bitboard(u64::MAX));
}

#[test]
fn sliders_see_through_the_king() {
    let b = board("4k3/8/8/8/8/8/8/r3K3 w - - 0 1");
    assert!(b.is_check());
    for m in moves(&b) {
        assert_ne!(m.target(), Square::F1);
        assert_ne!(m.target(), Square::D1);
    }
    assert_eq!(b.legal_moves.len(), 3);
}

#[test]
fn en_passant_is_made_and_taken_back() {
    let mut b = board("4k3/8/8/3pP3/8/8/8/4K3 w - d6 0 1");
    let en_passant = Move::new(Square::E5, Square::D6, MoveType::EnPassant);
    assert!(moves(&b).contains(&en_passant));
    assert!(moves(&b).contains(&Move::new(Square::E5, Square::E6, MoveType::Quiet)));
    assert_eq!(b.legal_moves.len(), 7);
    let before = b.clone();
    b.make_move(en_passant);
    assert_eq!(b.piece_on(Square::D6), Piece::Pawn);
    assert_eq!(b.piece_on(Square::D5), Piece::Empty);
    assert_eq!(b.piece_on(Square::E5), Piece::Empty);
    assert_eq!(b.colors[1], set(&[Square::E8]));
    assert_eq!(b.state.captured_piece, Piece::Pawn);
    assert_eq!(b.state.en_passant, Square::Null);
    assert_eq!(b.state.halfmove_clock, 0);
    assert_eq!(b.move_stack[0].captured, Piece::Pawn);
    b.undo_move();
    same_position(&b, &before);
}

#[test]
fn double_push_sets_the_en_passant_square() {
    let mut b = board(START);
    b.make_move(Move::new(Square::E2, Square::E4, MoveType::DoublePawnPush));
    assert_eq!(b.state.en_passant, Square::E3);
    assert_eq!(b.side_to_move, Color::Black);
    assert_eq!(b.state.halfmove_clock, 0);
    b.make_move(Move::new(Square::G8, Square::F6, MoveType::Quiet));
    assert_eq!(b.state.en_passant, Square::Null);
    assert_eq!(b.state.halfmove_clock, 1);
    assert_eq!(b.state.fullmove_number, 1);
    assert_eq!(b.move_stack.len(), 2);
    b.undo_move();
    assert_eq!(b.state.en_passant, Square::E3);
    b.undo_move();
    same_position(&b, &board(START));
    b.undo_move();
    same_position(&b, &board(START));
}

#[test]
fn castling_moves_the_rook_and_ends_the_rights() {
    let mut b = board(KIWIPETE);
    let kingside = CastlingKind::WhiteKingside.castling_move();
    let queenside = CastlingKind::WhiteQueenside.castling_move();
    let all = moves(&b);
    assert_eq!(all[all.len() - 2], kingside);
    assert_eq!(all[all.len() - 1], queenside);
    let before = b.clone();
    b.make_move(kingside);
    assert_eq!(b.piece_on(Square::G1), Piece::King);
    assert_eq!(b.piece_on(Square::F1), Piece::Rook);
    assert_eq!(b.piece_on(Square::H1), Piece::Empty);
    assert_eq!(b.piece_on(Square::E1), Piece::Empty);
    assert_eq!(b.state.castling.raw, 12);
    assert_eq!(b.state.halfmove_clock, 1);
    b.undo_move();
    same_position(&b, &before);
    b.make_move(queenside);
    assert_eq!(b.piece_on(Square::C1), Piece::King);
    assert_eq!(b.piece_on(Square::D1), Piece::Rook);
    assert_eq!(b.piece_on(Square::A1), Piece::Empty);
    b.undo_move();
    same_position(&b, &before);
    b.make_move(Move::new(Square::E5, Square::G6, MoveType::Capture));
    b.make_move(Move::new(Square::H3, Square::G2, MoveType::Capture));
    b.make_move(Move::new(Square::G6, Square::H8, MoveType::Capture));
    assert_eq!(b.state.castling.raw, 11);
    assert_eq!(b.state.captured_piece, Piece::Rook);
}

#[test]
fn castling_needs_right_path_and_safety() {
    let castles = |fen: &str| {
        moves(&board(fen))
            .into_iter()
            .filter(|m| m.is_castling())
            .collect::<Vec<Move>>()
    };
    let kingside = CastlingKind::WhiteKingside.castling_move();
    let queenside = CastlingKind::WhiteQueenside.castling_move();
    assert_eq!(castles("4k3/8/8/8/8/8/8/R3K2R w KQ - 0 1"), vec![kingside, queenside]);
    assert_eq!(castles("4k3/8/8/8/8/8/8/R3K2R w K - 0 1"), vec![kingside]);
    assert_eq!(castles("4k3/8/8/8/8/8/8/R3K2R w - - 0 1"), vec![]);
    assert_eq!(castles("4k3/8/8/8/8/8/8/R3KB1R w KQ - 0 1"), vec![queenside]);
    assert_eq!(castles("4k3/8/8/8/8/8/8/RN2K2R w KQ - 0 1"), vec![kingside]);
    assert_eq!(castles("4k3/8/8/8/8/8/8/R2QK2R w KQ - 0 1"), vec![kingside]);
    assert_eq!(castles("4kr2/8/8/8/8/8/8/R3K2R w KQ - 0 1"), vec![queenside]);
    assert_eq!(castles("4k1r1/8/8/8/8/8/8/R3K2R w KQ - 0 1"), vec![queenside]);
    assert_eq!(castles("3rk3/8/8/8/8/8/8/R3K2R w KQ - 0 1"), vec![kingside]);
    assert_eq!(castles("2r1k3/8/8/8/8/8/8/R3K2R w KQ - 0 1"), vec![kingside]);
    assert_eq!(
        castles("1r2k3/8/8/8/8/8/8/R3K2R w KQ - 0 1"),
        vec![kingside, queenside]
    );
    assert_eq!(castles("4r1k1/8/8/8/8/8/8/R3K2R w KQ - 0 1"), vec![]);
    assert_eq!(
        castles("r3k2r/8/8/8/8/8/8/4K3 b kq - 0 1"),
        vec![
            CastlingKind::BlackKingside.castling_move(),
            CastlingKind::BlackQueenside.castling_move()
        ]
    );
    let b = board("4k3/8/8/8/8/8/8/R3K2R w KQ - 0 1");
    let mut list = MoveList::default();
    b.generate_castling(CastlingKind::BlackKingside, &mut list);
    assert_eq!(list.len(), 0);
    b.generate_castling(CastlingKind::WhiteQueenside, &mut list);
    assert_eq!(list.moves, vec![queenside]);
}

#[test]
fn promotions_come_in_fours() {
    let b = board("1n5k/P3p3/8/8/8/8/8/7K w - - 0 1");
    let pawn_moves: Vec<Move> = moves(&b)
        .into_iter()
        .filter(|m| m.start() == Square::A7)
        .collect();
    assert_eq!(
        pawn_moves,
        vec![
            Move::new(Square::A7, Square::A8, MoveType::PromotionToRook),
            Move::new(Square::A7, Square::A8, MoveType::PromotionToQueen),
            Move::new(Square::A7, Square::A8, MoveType::PromotionToBishop),
            Move::new(Square::A7, Square::A8, MoveType::PromotionToKnight),
            Move::new(Square::A7, Square::B8, MoveType::PromotionCaptureToRook),
            Move::new(Square::A7, Square::B8, MoveType::PromotionCaptureToQueen),
            Move::new(Square::A7, Square::B8, MoveType::PromotionCaptureToBishop),
            Move::new(Square::A7, Square::B8, MoveType::PromotionCaptureToKnight),
        ]
    );
    let mut b = b;
    let before = b.clone();
    b.make_move(Move::new(Square::A7, Square::B8, MoveType::PromotionCaptureToKnight));
    assert_eq!(b.piece_on(Square::B8), Piece::Knight);
    assert_eq!(b.piece_on(Square::A7), Piece::Empty);
    assert_eq!(b.colors[1], set(&[Square::H8, Square::E7]));
    assert_eq!(b.pieces[0], set(&[Square::E7]));
    assert_eq!(b.move_stack[0].piece, Piece::Pawn);
    assert_eq!(b.move_stack[0].captured, Piece::Knight);
    b.undo_move();
    same_position(&b, &before);
}

#[test]
fn sound_positions_are_told_apart() {
    assert!(board(START).is_sound());
    assert!(board(KIWIPETE).is_sound());
    assert!(board("4k3/8/8/3pP3/8/8/8/4K3 w - d6 0 1").is_sound());
    assert!(Board::default().is_sound());
    assert!(!board("4k3/8/8/8/8/8/8/4K3 w K - 0 1").is_sound());
    assert!(!board("4k3/8/8/8/8/8/8/4K2R w Q - 0 1").is_sound());
    assert!(!board("4k2r/8/8/8/8/8/8/4K3 w q - 0 1").is_sound());
    assert!(!board("4k3/8/8/8/8/4P3/3P4/4K3 w - e3 0 1").is_sound());
    assert!(!board("4k3/8/8/3pP3/8/8/8/4K3 w - c6 0 1").is_sound());
    assert!(!board("4k3/8/8/3pP3/8/8/8/4K3 b - d6 0 1").is_sound());
    let mut twice = board("4k3/8/8/8/8/8/8/4K3 w - - 0 1");
    twice.add_piece(Square::E1, Color::Black, Piece::Queen);
    assert!(!twice.is_sound());
    let mut unrecorded = board("4k3/8/8/8/8/8/8/4K3 w - - 0 1");
    unrecorded.colors[0].set(Square::A1);
    assert!(!unrecorded.is_sound());
}

#[test]
fn legal_moves_keep_a_position_sound() {
    for fen in [
        START,
        KIWIPETE,
        "4k3/8/8/3pP3/8/8/8/4K3 w - d6 0 1",
        "r3k2r/Pppp1ppp/1b3nbN/nP6/BBP1P3/q4N2/Pp1P2PP/R2Q1RK1 w kq - 0 1",
    ] {
        let mut b = board(fen);
        assert!(b.is_sound());
        for m in moves(&b.clone()) {
            b.make_move(m);
            assert!(b.is_sound());
            for reply in moves(&b.clone()) {
                b.make_move(reply);
                assert!(b.is_sound());
                b.undo_move();
            }
            b.undo_move();
        }
    }
}

#[test]
fn refused_moves_change_nothing() {
    let mut b = board(START);
    let before = b.clone();
    b.make_move(Move::new(Square::E4, Square::E5, MoveType::Quiet));
    same_position(&b, &before);
    b.make_move(Move::new(Square::E2, Square::E2, MoveType::Quiet));
    same_position(&b, &before);
    b.undo_move();
    same_position(&b, &before);
}

#[test]
fn checkmate_is_no_stalemate() {
    let b = board("rnb1kbnr/pppp1ppp/8/4p3/6Pq/5P2/PPPPP2P/RNBQKBNR w KQkq - 1 3");
    assert_eq!(b.legal_moves.len(), 0);
    assert_eq!(b.checking_state.first.checking_piece, Square::H4);
    assert!(b.is_checkmate());
    assert!(!b.is_stalemate());
    assert!(b.is_check());
}

#[test]
fn stalemate_is_no_checkmate() {
    let b = board("7k/5Q2/6K1/8/8/8/8/8 b - - 0 1");
    assert_eq!(b.legal_moves.len(), 0);
    assert_eq!(b.checking_state.first.checking_piece, Square::Null);
    assert!(b.is_stalemate());
    assert!(!b.is_checkmate());
    assert!(!b.is_check());
}

#[test]
fn analysis_follows_the_pieces() {
    let mut b = board("4k3/8/8/8/8/8/8/4K3 w - - 0 1");
    assert_eq!(b.legal_moves.len(), 5);
    b.add_piece(Square::A8, Color::Black, Piece::Rook);
    b.add_piece(Square::A1, Color::Black, Piece::Rook);
    assert_eq!(b.legal_moves.len(), 5);
    let state = b.calculate_check_state();
    assert_eq!(state.first.checking_piece, Square::A1);
    assert_eq!(
        b.generate_king_moves(&state),
        set(&[Square::D2, Square::E2, Square::F2])
    );
    b.analyze_board();
    assert_eq!(b.legal_moves.len(), 3);
    assert_eq!(b.checking_state, state);
    assert_eq!(b.pinning_state, b.calculate_pin_state());
    assert_eq!(b.generate_legal_moves().moves, b.legal_moves.moves);
}

#[test]
fn names_of_moves() {
    let names = |fen: &str| {
        collect_algebraic_moves(&board(fen))
            .into_iter()
            .map(|m: AlgebraicMove| m.algebraic)
            .collect::<Vec<String>>()
    };
    let start = names(START);
    assert_eq!(start.len(), 20);
    assert_eq!(start[0], "Na3");
    assert_eq!(start[1], "Nc3");
    assert_eq!(start[4], "a3");
    assert_eq!(start[5], "a4");
    let kiwipete = names(KIWIPETE);
    assert!(kiwipete.contains(&"O-O".to_string()));
    assert!(kiwipete.contains(&"O-O-O".to_string()));
    assert!(kiwipete.contains(&"Qxf6".to_string()));
    assert!(kiwipete.contains(&"dxe6".to_string()));
    assert!(kiwipete.contains(&"Bxa6".to_string()));
    assert!(kiwipete.contains(&"Kf1".to_string()));
    let knights = names("4k3/8/8/8/8/8/8/1N2KN2 w - - 0 1");
    assert!(knights.contains(&"Nbd2".to_string()));
    assert!(knights.contains(&"Nfd2".to_string()));
    assert!(knights.contains(&"Na3".to_string()));
    let rooks = names("4k3/8/R7/8/8/8/R7/4K3 w - - 0 1");
    assert!(rooks.contains(&"R2a4".to_string()));
    assert!(rooks.contains(&"R6a4".to_string()));
    assert!(rooks.contains(&"Rb2".to_string()));
    let queens = names("4k3/8/8/8/Q6Q/8/8/3QK3 w - - 0 1");
    assert!(queens.contains(&"Qd1d4".to_string()));
    assert!(queens.contains(&"Qa4d4".to_string()));
    assert!(queens.contains(&"Qh4d4".to_string()));
    let promotions = names("1n5k/P3p3/8/8/8/8/8/7K w - - 0 1");
    assert!(promotions.contains(&"a8=Q".to_string()));
    assert!(promotions.contains(&"a8=N".to_string()));
    assert!(promotions.contains(&"axb8=R".to_string()));
    assert!(promotions.contains(&"axb8=B".to_string()));
    let en_passant = names("4k3/8/8/3pP3/8/8/8/4K3 w - d6 0 1");
    assert!(en_passant.contains(&"exd6".to_string()));
    assert!(en_passant.contains(&"e6".to_string()));
}

#[test]
fn full_moves_name_piece_and_capture() {
    let b = board("4k3/8/8/3pP3/8/8/8/4K3 w - d6 0 1");
    let en_passant = Move::new(Square::E5, Square::D6, MoveType::EnPassant);
    let full = move_to_full(en_passant, &b);
    assert_eq!(full.piece, Piece::Pawn);
    assert_eq!(full.captured, Piece::Pawn);
    assert_eq!(full.inner_move, en_passant);
    let quiet = move_to_full(Move::new(Square::E1, Square::E2, MoveType::Quiet), &b);
    assert_eq!(quiet.piece, Piece::King);
    assert_eq!(quiet.captured, Piece::Empty);
    let listed = collect_algebraic_moves(&b);
    for (i, m) in listed.iter().enumerate() {
        assert_eq!(m.full_move, move_to_full(b.legal_moves.get(i), &b));
    }
    let made = AlgebraicMove::new(&full, "exd6".to_string());
    assert_eq!(made.full_move, full);
    assert_eq!(made.algebraic, "exd6");
}
