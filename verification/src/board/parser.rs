use vstd::prelude::*;
use vstd::string::StringSliceAdditionalSpecFns;
use vstd::utf8::encode_utf8;
use crate::board::Board;
use crate::board::BoardState;
use crate::board::Position;
use crate::types::castling::rights_of;
use crate::types::castling::Castling;
use crate::types::color::Color;
use crate::types::piece::Piece;
use crate::types::square::square_of_name;
use crate::types::square::Square;

verus! {

/// Why a board description is refused.
#[derive(Copy, Clone, PartialEq, Eq, Structural, Debug)]
pub enum FenParseErr {
    /// A field is missing, or a count is no number that fits its field.
    MissingData,
    /// A symbol of the piece field is no piece letter, or falls off the board.
    InvalidPieceType,
    /// The side to move is neither `w` nor `b`.
    InvalidColor,
    /// The en passant field is neither `-` nor the name of a square.
    InvalidEnPassant,
}

impl FenParseErr {
    /// The message for the error.
    pub open spec fn message(self) -> Seq<char> {
        match self {
            FenParseErr::MissingData => "Missing Data"@,
            FenParseErr::InvalidColor => "Invalid Color"@,
            FenParseErr::InvalidPieceType => "Invalid Piece Type"@,
            FenParseErr::InvalidEnPassant => "Invalid En Passant"@,
        }
    }

    /// The message for the error.
    pub fn to_string(&self) -> (s: String)
        ensures
            s@ == self.message(),
    {
        match self {
            FenParseErr::MissingData => String::from_str("Missing Data"),
            FenParseErr::InvalidColor => String::from_str("Invalid Color"),
            FenParseErr::InvalidPieceType => String::from_str("Invalid Piece Type"),
            FenParseErr::InvalidEnPassant => String::from_str("Invalid En Passant"),
        }
    }
}

/// Whether the byte separates fields: a blank, a tab, a line feed, a vertical
/// tab, a form feed or a carriage return.
pub open spec fn is_space(b: u8) -> bool {
    b == 0x20 || (0x09 <= b <= 0x0d)
}

/// The first index from `i` on that holds no separator, the length if there is none.
pub open spec fn skip_spaces(s: Seq<u8>, i: int) -> int
    decreases s.len() - i,
{
    if 0 <= i < s.len() && is_space(s[i]) {
        skip_spaces(s, i + 1)
    } else {
        i
    }
}

/// The first index from `i` on that holds a separator, the length if there is none.
pub open spec fn skip_word(s: Seq<u8>, i: int) -> int
    decreases s.len() - i,
{
    if 0 <= i < s.len() && !is_space(s[i]) {
        skip_word(s, i + 1)
    } else {
        i
    }
}

/// The index at which the field of number `n` starts, counted from 0; the
/// length of the text if it has no such field.
pub open spec fn field_start(s: Seq<u8>, n: nat) -> int
    decreases n,
{
    if n == 0 {
        skip_spaces(s, 0)
    } else {
        skip_spaces(s, skip_word(s, field_start(s, (n - 1) as nat)))
    }
}

/// The field of number `n`: empty exactly if the text has no such field.
pub open spec fn field(s: Seq<u8>, n: nat) -> Seq<u8> {
    s.subrange(field_start(s, n), skip_word(s, field_start(s, n)))
}

/// How often the byte `b` occurs in `s`.
pub open spec fn count_byte(s: Seq<u8>, b: u8) -> int
    decreases s.len(),
{
    if s.len() == 0 {
        0
    } else {
        count_byte(s.drop_last(), b) + (if s.last() == b {
            1int
        } else {
            0int
        })
    }
}

/// The kind of piece that a letter of the piece field stands for.
pub open spec fn piece_of_byte(b: u8) -> Piece {
    if b == 0x70 || b == 0x50 {
        Piece::Pawn
    } else if b == 0x6e || b == 0x4e {
        Piece::Knight
    } else if b == 0x62 || b == 0x42 {
        Piece::Bishop
    } else if b == 0x72 || b == 0x52 {
        Piece::Rook
    } else if b == 0x71 || b == 0x51 {
        Piece::Queen
    } else if b == 0x6b || b == 0x4b {
        Piece::King
    } else {
        Piece::Empty
    }
}

/// The colour that a letter of the piece field stands for: white for a capital.
pub open spec fn color_of_byte(b: u8) -> Color {
    if 0x41 <= b <= 0x5a {
        Color::White
    } else {
        Color::Black
    }
}

/// Where the reading of a piece field stands: the row and the file of the
/// next square, the pieces placed so far, and whether every symbol so far
/// was accepted.
pub struct Placement {
    pub row: int,
    pub file: int,
    pub position: Position,
    pub valid: bool,
}

/// The reading of a piece field after one more symbol. The rows are read
/// from the last rank down, `last_row` being the number of the row that
/// stands for the first rank. A `/` starts the next row, a digit leaves that
/// many squares empty, and a piece letter puts a piece on the next square,
/// which must be on the board.
pub open spec fn place_byte(p: Placement, b: u8, last_row: int) -> Placement {
    if !p.valid {
        p
    } else if b == 0x2f {
        Placement { row: p.row + 1, file: 0, ..p }
    } else if 0x30 <= b <= 0x39 {
        Placement { file: p.file + (b - 0x30), ..p }
    } else if piece_of_byte(b) != Piece::Empty && 0 <= last_row - p.row < 8 && p.file < 8 {
        Placement {
            file: p.file + 1,
            position: p.position.added(
                (last_row - p.row) * 8 + p.file,
                color_of_byte(b),
                piece_of_byte(b),
            ),
            ..p
        }
    } else {
        Placement { valid: false, ..p }
    }
}

/// The reading of a piece field after all the symbols of `s`.
pub open spec fn place_all(s: Seq<u8>, last_row: int) -> Placement
    decreases s.len(),
{
    if s.len() == 0 {
        Placement { row: 0, file: 0, position: Position::vacant(), valid: true }
    } else {
        place_byte(place_all(s.drop_last(), last_row), s.last(), last_row)
    }
}

/// The pieces that a piece field describes, if every symbol is accepted.
pub open spec fn pieces_of(s: Seq<u8>) -> Option<Position> {
    let done = place_all(s, count_byte(s, 0x2f));
    if done.valid {
        Some(done.position)
    } else {
        None
    }
}

/// The number that a run of decimal digits writes, 0 for the empty run.
pub open spec fn decimal(s: Seq<u8>) -> int
    decreases s.len(),
{
    if s.len() == 0 {
        0
    } else {
        decimal(s.drop_last()) * 10 + (s.last() - 0x30)
    }
}

/// Whether every byte is a decimal digit.
pub open spec fn all_digits(s: Seq<u8>) -> bool {
    forall|i: int| 0 <= i < s.len() ==> 0x30 <= #[trigger] s[i] <= 0x39
}

/// The count that a field writes, if it is a run of digits whose number is
/// at most `max`.
pub open spec fn count_of(s: Seq<u8>, max: int) -> Option<int> {
    if s.len() > 0 && all_digits(s) && decimal(s) <= max {
        Some(decimal(s))
    } else {
        None
    }
}

/// The square that an en passant field names: none for `-`.
pub open spec fn en_passant_of(s: Seq<u8>) -> Result<Square, ()> {
    if s.len() == 1 && s[0] == 0x2d {
        Ok(Square::Null)
    } else {
        square_of_name(s)
    }
}

/// The position that a board description of six fields gives: the pieces,
/// the side to move, the castling rights, the en passant square and the two
/// counts. The first field that cannot be read decides the error.
pub open spec fn parse_fen(s: Seq<u8>) -> Result<Position, FenParseErr> {
    if field(s, 0).len() == 0 {
        Err(FenParseErr::MissingData)
    } else if pieces_of(field(s, 0)) is None {
        Err(FenParseErr::InvalidPieceType)
    } else if field(s, 1) != seq![0x77u8] && field(s, 1) != seq![0x62u8] {
        Err(FenParseErr::InvalidColor)
    } else if field(s, 2).len() == 0 || field(s, 3).len() == 0 {
        Err(FenParseErr::MissingData)
    } else if en_passant_of(field(s, 3)) is Err {
        Err(FenParseErr::InvalidEnPassant)
    } else if count_of(field(s, 4), 255) is None || count_of(field(s, 5), 65535) is None {
        Err(FenParseErr::MissingData)
    } else {
        Ok(
            Position {
                side: if field(s, 1) == seq![0x77u8] {
                    Color::White
                } else {
                    Color::Black
                },
                state: BoardState {
                    en_passant: en_passant_of(field(s, 3))->Ok_0,
                    halfmove_clock: count_of(field(s, 4), 255)->Some_0 as u8,
                    castling: Castling { raw: rights_of(field(s, 2)) },
                    fullmove_number: count_of(field(s, 5), 65535)->Some_0 as u16,
                    captured_piece: Piece::Empty,
                },
                ..pieces_of(field(s, 0))->Some_0
            },
        )
    }
}

fn byte_is_space(b: u8) -> (r: bool)
    ensures
        r == is_space(b),
{
    b == 0x20 || (0x09 <= b && b <= 0x0d)
}

/// The bounds of the next field from `from` on.
fn next_field(bytes: &[u8], from: usize) -> (r: (usize, usize))
    requires
        from <= bytes@.len(),
    ensures
        r.0 == skip_spaces(bytes@, from as int),
        r.1 == skip_word(bytes@, r.0 as int),
        from <= r.0 <= r.1 <= bytes@.len(),
{
    let mut start: usize = from;
    while start < bytes.len() && byte_is_space(bytes[start])
        invariant
            from <= start <= bytes@.len(),
            skip_spaces(bytes@, from as int) == skip_spaces(bytes@, start as int),
        decreases bytes@.len() - start,
    {
        start = start + 1;
    }
    let mut end: usize = start;
    while end < bytes.len() && !byte_is_space(bytes[end])
        invariant
            start <= end <= bytes@.len(),
            skip_word(bytes@, start as int) == skip_word(bytes@, end as int),
        decreases bytes@.len() - end,
    {
        end = end + 1;
    }
    (start, end)
}

/// The count that the bytes from `from` to `to` write.
fn read_count(bytes: &[u8], from: usize, to: usize, max: u32) -> (r: Option<u32>)
    requires
        from <= to <= bytes@.len(),
        max <= 65535,
    ensures
        r matches Some(v) ==> v <= max && count_of(
            bytes@.subrange(from as int, to as int),
            max as int,
        ) == Some(v as int),
        r is None ==> count_of(bytes@.subrange(from as int, to as int), max as int) is None,
{
    let ghost s = bytes@.subrange(from as int, to as int);
    if from == to {
        return None;
    }
    let mut value: u32 = 0;
    let mut i: usize = from;
    assert(s.take(0) =~= Seq::<u8>::empty());
    while i < to
        invariant
            from <= i <= to <= bytes@.len(),
            s == bytes@.subrange(from as int, to as int),
            max <= 65535,
            all_digits(s.take(i - from)),
            value == decimal(s.take(i - from)),
            value <= max,
        decreases to - i,
    {
        let b: u8 = bytes[i];
        assert(s[i - from] == b);
        if b < 0x30 || b > 0x39 {
            return None;
        }
        let ghost front = s.take(i - from);
        let ghost next = s.take(i - from + 1);
        assert(next.drop_last() =~= front);
        assert(next.last() == b);
        value = value * 10 + (b - 0x30) as u32;
        assert(all_digits(next)) by {
            assert forall|k: int| 0 <= k < next.len() implies 0x30 <= #[trigger] next[k]
                <= 0x39 by {
                if k < front.len() {
                    assert(front[k] == next[k]);
                }
            }
        }
        if value > max {
            proof {
                lemma_decimal_grows(s, i - from + 1);
            }
            return None;
        }
        i = i + 1;
    }
    assert(s.take(to - from) =~= s);
    Some(value)
}

/// A run of digits writes at least what each of its beginnings writes.
proof fn lemma_decimal_grows(s: Seq<u8>, k: int)
    requires
        0 <= k <= s.len(),
    ensures
        all_digits(s) ==> decimal(s.take(k)) <= decimal(s),
    decreases s.len() - k,
{
    if k < s.len() && all_digits(s) {
        lemma_decimal_grows(s, k + 1);
        assert(s.take(k + 1).drop_last() =~= s.take(k));
        assert(s.take(k + 1).last() == s[k]);
        lemma_decimal_nonnegative(s.take(k));
    } else if k == s.len() {
        assert(s.take(k) =~= s);
    }
}

proof fn lemma_decimal_nonnegative(s: Seq<u8>)
    requires
        all_digits(s),
    ensures
        decimal(s) >= 0,
    decreases s.len(),
{
    if s.len() > 0 {
        assert(all_digits(s.drop_last())) by {
            assert forall|k: int| 0 <= k < s.drop_last().len() implies 0x30
                <= #[trigger] s.drop_last()[k] <= 0x39 by {
                assert(s[k] == s.drop_last()[k]);
            }
        }
        lemma_decimal_nonnegative(s.drop_last());
    }
}

fn count_slashes(bytes: &[u8], from: usize, to: usize) -> (n: usize)
    requires
        from <= to <= bytes@.len(),
    ensures
        n == count_byte(bytes@.subrange(from as int, to as int), 0x2f),
{
    let ghost s = bytes@.subrange(from as int, to as int);
    let mut n: usize = 0;
    let mut i: usize = from;
    assert(s.take(0) =~= Seq::<u8>::empty());
    while i < to
        invariant
            from <= i <= to <= bytes@.len(),
            s == bytes@.subrange(from as int, to as int),
            n == count_byte(s.take(i - from), 0x2f),
            n <= i - from,
        decreases to - i,
    {
        assert(s.take(i - from + 1).drop_last() =~= s.take(i - from));
        assert(s.take(i - from + 1).last() == bytes@[i as int]);
        if bytes[i] == 0x2f {
            n = n + 1;
        }
        i = i + 1;
    }
    assert(s.take(to - from) =~= s);
    n
}

fn byte_piece(b: u8) -> (p: Piece)
    ensures
        p == piece_of_byte(b),
{
    if b == 0x70 || b == 0x50 {
        Piece::Pawn
    } else if b == 0x6e || b == 0x4e {
        Piece::Knight
    } else if b == 0x62 || b == 0x42 {
        Piece::Bishop
    } else if b == 0x72 || b == 0x52 {
        Piece::Rook
    } else if b == 0x71 || b == 0x51 {
        Piece::Queen
    } else if b == 0x6b || b == 0x4b {
        Piece::King
    } else {
        Piece::Empty
    }
}

impl Board {
    /// Puts the pieces that a piece field describes on an empty board, and
    /// says whether every symbol was accepted.
    fn place_pieces(&mut self, bytes: &[u8], from: usize, to: usize) -> (ok: bool)
        requires
            from <= to <= bytes@.len(),
            old(self).position() == Position::vacant(),
        ensures
            final(self).same_rest(old(self)),
            match pieces_of(bytes@.subrange(from as int, to as int)) {
                Some(p) => ok && final(self).position() == p,
                None => !ok,
            },
    {
        let ghost s = bytes@.subrange(from as int, to as int);
        let last_row: usize = count_slashes(bytes, from, to);
        let mut row: usize = 0;
        let mut file: usize = 0;
        let mut i: usize = from;
        assert(s.take(0) =~= Seq::<u8>::empty());
        while i < to
            invariant
                from <= i <= to <= bytes@.len(),
                s == bytes@.subrange(from as int, to as int),
                self.same_rest(old(self)),
                last_row == count_byte(s, 0x2f),
                place_all(s.take(i - from), last_row as int).valid,
                place_all(s.take(i - from), last_row as int).position == self.position(),
                place_all(s.take(i - from), last_row as int).row == row,
                row <= i - from,
                file == (if place_all(s.take(i - from), last_row as int).file < 8 {
                    place_all(s.take(i - from), last_row as int).file
                } else {
                    8
                }),
                place_all(s.take(i - from), last_row as int).file >= 0,
            ensures
                i == to,
            decreases to - i,
        {
            let b: u8 = bytes[i];
            let ghost before = place_all(s.take(i - from), last_row as int);
            let ghost after = place_all(s.take(i - from + 1), last_row as int);
            proof {
                assert(s.take(i - from + 1).drop_last() =~= s.take(i - from));
                assert(s.take(i - from + 1).last() == b);
                assert(after == place_byte(before, b, last_row as int));
            }
            if b == 0x2f {
                row = row + 1;
                file = 0;
            } else if 0x30 <= b && b <= 0x39 {
                let skip: usize = (b - 0x30) as usize;
                file = if file + skip < 8 {
                    file + skip
                } else {
                    8
                };
            } else {
                let piece = byte_piece(b);
                if piece != Piece::Empty && row <= last_row && last_row - row < 8 && file < 8 {
                    let color = if 0x41 <= b && b <= 0x5a {
                        Color::White
                    } else {
                        Color::Black
                    };
                    let rank: usize = last_row - row;
                    let square = Square::from_rank_file(rank as u8, file as u8);
                    proof {
                        Square::lemma_idx_injective(square, Square::Null);
                    }
                    file = file + 1;
                    self.add_piece(square, color, piece);
                } else {
                    proof {
                        assert(!after.valid);
                        lemma_place_stays_invalid(s, i - from + 1, last_row as int);

                    }
                    return false;
                }
            }
            i = i + 1;
        }
        assert(s.take(to - from) =~= s);
        true
    }

    /// Reads a board description. The board that comes back holds the
    /// position described; what is derived from the position has yet to be
    /// brought up to date.
    pub fn parse(s: &str) -> (r: Result<Board, FenParseErr>)
        ensures
            match parse_fen(s.spec_bytes()) {
                Ok(p) => r matches Ok(b) && b.position() == p && b.standard_bitboards.wf()
                    && b.state_stack@.len() == 0 && b.move_stack@.len() == 0,
                Err(e) => r matches Err(x) && x == e,
            },
            r matches Ok(b) ==> b.position().consistent(),
    {
        proof {
            lemma_parse_consistent(s.spec_bytes());
        }
        let bytes = s.as_bytes();
        let mut board = Board::default();
        let pieces = next_field(bytes, 0);
        assert(bytes@.subrange(pieces.0 as int, pieces.1 as int) == field(bytes@, 0));
        if pieces.0 == pieces.1 {
            return Err(FenParseErr::MissingData);
        }
        if !board.place_pieces(bytes, pieces.0, pieces.1) {
            return Err(FenParseErr::InvalidPieceType);
        }
        let side = next_field(bytes, pieces.1);
        let ghost side_field = bytes@.subrange(side.0 as int, side.1 as int);
        assert(side_field == field(bytes@, 1));
        if side.1 - side.0 != 1 {
            return Err(FenParseErr::InvalidColor);
        }
        assert(side_field[0] == bytes@[side.0 as int]);
        if bytes[side.0] == 0x77 {
            assert(side_field =~= seq![0x77u8]);
            board.side_to_move = Color::White;
        } else if bytes[side.0] == 0x62 {
            assert(side_field =~= seq![0x62u8]);
            assert(seq![0x62u8][0] != seq![0x77u8][0]);
            board.side_to_move = Color::Black;
        } else {
            assert(seq![0x62u8][0] != side_field[0]);
            assert(seq![0x77u8][0] != side_field[0]);
            return Err(FenParseErr::InvalidColor);
        }
        let rights = next_field(bytes, side.1);
        assert(bytes@.subrange(rights.0 as int, rights.1 as int) == field(bytes@, 2));
        if rights.0 == rights.1 {
            return Err(FenParseErr::MissingData);
        }
        let en_passant = next_field(bytes, rights.1);
        let ghost ep_field = bytes@.subrange(en_passant.0 as int, en_passant.1 as int);
        assert(ep_field == field(bytes@, 3));
        if en_passant.0 == en_passant.1 {
            return Err(FenParseErr::MissingData);
        }
        let en_passant_square = match read_en_passant(bytes, en_passant.0, en_passant.1) {
            Ok(square) => square,
            Err(_) => {
                return Err(FenParseErr::InvalidEnPassant);
            },
        };
        let halfmove = next_field(bytes, en_passant.1);
        assert(bytes@.subrange(halfmove.0 as int, halfmove.1 as int) == field(bytes@, 4));
        let halfmove_clock = match read_count(bytes, halfmove.0, halfmove.1, 255) {
            Some(n) => n as u8,
            None => {
                return Err(FenParseErr::MissingData);
            },
        };
        let fullmove = next_field(bytes, halfmove.1);
        assert(bytes@.subrange(fullmove.0 as int, fullmove.1 as int) == field(bytes@, 5));
        let fullmove_number = match read_count(bytes, fullmove.0, fullmove.1, 65535) {
            Some(n) => n as u16,
            None => {
                return Err(FenParseErr::MissingData);
            },
        };
        board.state =
        BoardState {
            en_passant: en_passant_square,
            halfmove_clock,
            castling: read_rights(bytes, rights.0, rights.1),
            fullmove_number,
            captured_piece: Piece::Empty,
        };
        assert(board.position() == parse_fen(bytes@)->Ok_0);
        Ok(board)
    }

    /// Makes the board that a description gives, with its check state, its
    /// pin state and its legal moves.
    pub fn new(fen: String) -> (r: Result<Board, FenParseErr>)
        ensures
            match parse_fen(encode_utf8(fen@)) {
                Ok(p) => r matches Ok(b) && b.position() == p && b.wf() && b.move_stack@.len()
                    == 0,
                Err(e) => r matches Err(x) && x == e,
            },
            r matches Ok(b) ==> b.position().consistent(),
    {
        match Board::parse(fen.as_str()) {
            Ok(mut board) => {
                board.analyze_board();
                Ok(board)
            },
            Err(err) => Err(err),
        }
    }
}

impl core::str::FromStr for Board {
    type Err = FenParseErr;

    /// Reads a board description, as `Board::parse` does.
    fn from_str(s: &str) -> (r: Result<Board, FenParseErr>)
        ensures
            match parse_fen(s.spec_bytes()) {
                Ok(p) => r matches Ok(b) && b.position() == p && b.standard_bitboards.wf()
                    && b.state_stack@.len() == 0 && b.move_stack@.len() == 0,
                Err(e) => r matches Err(x) && x == e,
            },
            r matches Ok(b) ==> b.position().consistent(),
    {
        Board::parse(s)
    }
}

/// The square that the en passant field from `from` to `to` names.
fn read_en_passant(bytes: &[u8], from: usize, to: usize) -> (r: Result<Square, ()>)
    requires
        from <= to <= bytes@.len(),
    ensures
        r == en_passant_of(bytes@.subrange(from as int, to as int)),
{
    let ghost s = bytes@.subrange(from as int, to as int);
    proof {
        Square::lemma_at(64);
        Square::lemma_idx_injective(Square::Null, Square::Null);
    }
    if to - from == 1 {
        assert(s[0] == bytes@[from as int]);
        if bytes[from] == 0x2d {
            Ok(Square::Null)
        } else {
            Err(())
        }
    } else if to - from == 2 {
        let file: u8 = bytes[from];
        let rank: u8 = bytes[from + 1];
        assert(s[0] == file && s[1] == rank);
        if 0x61 <= file && file <= 0x68 && 0x31 <= rank && rank <= 0x38 {
            Ok(Square::from_rank_file(rank - 0x31, file - 0x61))
        } else {
            Err(())
        }
    } else {
        Err(())
    }
}

/// The castling rights that the field from `from` to `to` grants.
fn read_rights(bytes: &[u8], from: usize, to: usize) -> (c: Castling)
    requires
        from <= to <= bytes@.len(),
    ensures
        c.raw == rights_of(bytes@.subrange(from as int, to as int)),
{
    let ghost s = bytes@.subrange(from as int, to as int);
    let mut raw: u8 = 0;
    let mut i: usize = from;
    assert(s.take(0) =~= Seq::<u8>::empty());
    while i < to
        invariant
            from <= i <= to <= bytes@.len(),
            s == bytes@.subrange(from as int, to as int),
            raw == rights_of(s.take(i - from)),
        decreases to - i,
    {
        let b: u8 = bytes[i];
        let right: u8 = if b == 0x4b {
            1
        } else if b == 0x51 {
            2
        } else if b == 0x6b {
            4
        } else if b == 0x71 {
            8
        } else {
            0
        };
        assert(s.take(i - from + 1).drop_last() =~= s.take(i - from));
        assert(s.take(i - from + 1).last() == b);
        raw = raw | right;
        i = i + 1;
    }
    assert(s.take(to - from) =~= s);
    Castling { raw }
}

/// Once a symbol is refused the reading stays refused.
proof fn lemma_place_stays_invalid(s: Seq<u8>, k: int, last_row: int)
    requires
        0 <= k <= s.len(),
        !place_all(s.take(k), last_row).valid,
    ensures
        !place_all(s, last_row).valid,
    decreases s.len() - k,
{
    if k < s.len() {
        assert(s.take(k + 1).drop_last() =~= s.take(k));
        lemma_place_stays_invalid(s, k + 1, last_row);
    } else {
        assert(s.take(k) =~= s);
    }
}

/// Whether the reading of a piece field has left the squares that it has
/// yet to reach bare: those of the ranks below the current row, and those of
/// the current row from the current file on.
pub open spec fn ahead_bare(p: Placement, last_row: int) -> bool {
    forall|sq: int|
        0 <= sq < 64 && (sq / 8 < last_row - p.row || (sq / 8 == last_row - p.row && sq % 8
            >= p.file)) ==> #[trigger] p.position.bare(sq)
}

/// While a piece field is read, sets and record of the squares agree, and
/// the squares yet to be reached are bare.
pub proof fn lemma_place_all(s: Seq<u8>, last_row: int)
    ensures
        place_all(s, last_row).valid ==> place_all(s, last_row).position.consistent()
            && ahead_bare(place_all(s, last_row), last_row) && place_all(s, last_row).file >= 0,
    decreases s.len(),
{
    broadcast use crate::bits::group_bit_lemmas;

    let done = place_all(s, last_row);
    if s.len() == 0 {
        let v = Position::vacant();
        assert forall|sq: int| 0 <= sq < 64 implies #[trigger] v.bare(sq) && v.agrees_at(sq) by {}
    } else if done.valid {
        let p = place_all(s.drop_last(), last_row);
        let b = s.last();
        lemma_place_all(s.drop_last(), last_row);
        assert(p.valid);
        if b == 0x2f {
        } else if 0x30 <= b <= 0x39 {
        } else {
            let at = (last_row - p.row) * 8 + p.file;
            let color = color_of_byte(b);
            let piece = piece_of_byte(b);
            assert(p.position.bare(at));
            p.position.lemma_added_consistent(at, color, piece);
            assert forall|sq: int|
                0 <= sq < 64 && (sq / 8 < last_row - done.row || (sq / 8 == last_row - done.row
                    && sq % 8 >= done.file)) implies #[trigger] done.position.bare(sq) by {
                assert(p.position.bare(sq));
                p.position.lemma_added_elsewhere(at, color, piece, sq);
            }
        }
    }
}

/// The position that a board description gives has sets and record of the
/// squares in agreement.
pub proof fn lemma_parse_consistent(s: Seq<u8>)
    ensures
        parse_fen(s) matches Ok(p) ==> p.consistent(),
{
    let f = field(s, 0);
    lemma_place_all(f, count_byte(f, 0x2f));
    if parse_fen(s) is Ok {
        let p = parse_fen(s)->Ok_0;
        let q = pieces_of(f)->Some_0;
        assert(q.consistent());
        assert forall|sq: int| 0 <= sq < 64 implies #[trigger] p.agrees_at(sq) by {
            assert(q.agrees_at(sq));
        }
    }
}

} // verus!
