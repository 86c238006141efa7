use chess_rules::board::Board;
use chess_rules::tools::perft::perft;
use chess_rules::tools::perft::PerftResult;

const KIWIPETE: &str = "r3k2r/p1ppqpb1/bn2pnp1/3PN3/1p2P3/2N2Q1p/PPPBBPPP/R3K2R w KQkq - 0 1";

#[test]
fn one() {
    let mut board = Board::new(KIWIPETE.to_string()).unwrap();
    let result = perft(&mut board, 1);
    assert_eq!(
        result,
        PerftResult {
            nodes: 48,
            captures: 8,
            en_passants: 0,
            castles: 2,
            promotions: 0,
            checks: 0,
            checkmates: 0,
        }
    );
}

#[test]
fn two() {
    let mut board = Board::new(KIWIPETE.to_string()).unwrap();
    let result = perft(&mut board, 2);
    assert_eq!(
        result,
        PerftResult {
            nodes: 2039,
            captures: 351,
            en_passants: 1,
            castles: 91,
            promotions: 0,
            checks: 3,
            checkmates: 0,
        }
    );
}

#[test]
fn three() {
    let mut board = Board::new(KIWIPETE.to_string()).unwrap();
    let result = perft(&mut board, 3);
    assert_eq!(
        result,
        PerftResult {
            nodes: 97862,
            captures: 17102,
            en_passants: 45,
            castles: 3162,
            promotions: 0,
            checks: 993,
            checkmates: 1,
        }
    );
}

#[test]
fn counts_add_up() {
    let a = PerftResult {
        nodes: 1,
        captures: 2,
        en_passants: 3,
        castles: 4,
        promotions: 5,
        checks: 6,
        checkmates: 7,
    };
    let b = PerftResult {
        nodes: 10,
        captures: 20,
        en_passants: 30,
        castles: 40,
        promotions: 50,
        checks: 60,
        checkmates: 70,
    };
    let sum = PerftResult {
        nodes: 11,
        captures: 22,
        en_passants: 33,
        castles: 44,
        promotions: 55,
        checks: 66,
        checkmates: 77,
    };
    assert_eq!(a + b, sum);
    let mut c = a;
    c += b;
    assert_eq!(c, sum);
    assert_eq!(PerftResult::default() + a, a);
}

#[test]
fn leaf_counts_one_node() {
    let mut board = Board::new(KIWIPETE.to_string()).unwrap();
    let result = perft(&mut board, 0);
    assert_eq!(
        result,
        PerftResult {
            nodes: 1,
            captures: 0,
            en_passants: 0,
            castles: 0,
            promotions: 0,
            checks: 0,
            checkmates: 0,
        }
    );
}
