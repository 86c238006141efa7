use chess_rules::types::Square;

#[test]
fn try_from_str() {
    assert_eq!(Square::try_from("a1"), Ok(Square::A1));
}

#[test]
fn shift() {
    assert_eq!(Square::A1.shift(1), Square::B1)
}

#[test]
fn xor() {
    assert_eq!(Square::G1 ^ 2, Square::E1)
}
