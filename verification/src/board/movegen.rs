use vstd::prelude::*;
use crate::bits::bit;
use crate::bits::group_bit_lemmas;
use crate::bits::lemma_neutral;
use crate::bits::single;
use crate::board::lines::is_king_stride;
use crate::board::lines::lemma_between;
use crate::board::lines::lemma_bishop;
use crate::board::lines::lemma_ray;
use crate::board::lines::lemma_rook;
use crate::board::lines::bishop_sees;
use crate::board::lines::lies_between;
use crate::board::lines::rook_sees;
use crate::board::lines::slides_to;
use crate::types::bitboard::Bitboard;
use crate::types::color::Color;
use crate::types::square::Square;

verus! {

broadcast use group_bit_lemmas;

/// The squares of the a-file.
pub const A_FILE: u64 = 0x0101_0101_0101_0101;

/// The squares of the b-file.
pub const B_FILE: u64 = 0x0202_0202_0202_0202;

/// The squares of the g-file.
pub const G_FILE: u64 = 0x4040_4040_4040_4040;

/// The squares of the h-file.
pub const H_FILE: u64 = 0x8080_8080_8080_8080;

/// The squares of the a-file and the b-file.
pub const AB_FILE: u64 = 0x0303_0303_0303_0303;

/// The squares of the g-file and the h-file.
pub const GH_FILE: u64 = 0xc0c0_c0c0_c0c0_c0c0;

/// Whether `i` is the index of a square of the board.
pub open spec fn on_board(i: int) -> bool {
    0 <= i < 64
}

/// The file of the square of index `i`, from 0 for the a-file.
pub open spec fn file_of(i: int) -> int {
    i % 8
}

/// The rank of the square of index `i`, from 0 for the first rank.
pub open spec fn rank_of(i: int) -> int {
    i / 8
}

/// The distance between two numbers.
pub open spec fn gap(a: int, b: int) -> int {
    if a >= b {
        a - b
    } else {
        b - a
    }
}

/// The number of king steps between two squares: the larger of the distance
/// of their files and that of their ranks.
pub open spec fn king_distance(a: int, b: int) -> int {
    let df = gap(file_of(a), file_of(b));
    let dr = gap(rank_of(a), rank_of(b));
    if df >= dr {
        df
    } else {
        dr
    }
}

/// Whether a knight on `s` attacks `t`.
pub open spec fn knight_jump(s: int, t: int) -> bool {
    &&& on_board(s)
    &&& on_board(t)
    &&& {
        let df = gap(file_of(s), file_of(t));
        let dr = gap(rank_of(s), rank_of(t));
        (df == 1 && dr == 2) || (df == 2 && dr == 1)
    }
}

/// Whether a king on `s` attacks `t`.
pub open spec fn king_step(s: int, t: int) -> bool {
    on_board(s) && on_board(t) && king_distance(s, t) == 1
}

/// Whether a pawn of the given colour on `s` attacks `t`: one rank ahead, one
/// file to either side.
pub open spec fn pawn_attack(color: Color, s: int, t: int) -> bool {
    &&& on_board(s)
    &&& on_board(t)
    &&& gap(file_of(s), file_of(t)) == 1
    &&& rank_of(t) == rank_of(s) + (if color == Color::White {
        1int
    } else {
        -1int
    })
}

/// The squares a knight's jump away from the squares of `bb`: each shift
/// leaves out the files from which it would run over the edge.
pub open spec fn knight_word(bb: u64) -> u64 {
    (bb & !A_FILE) >> 17 | (bb & !H_FILE) << 17 | (bb & !A_FILE) << 15 | (bb & !H_FILE) >> 15 | (bb
        & !AB_FILE) >> 10 | (bb & !GH_FILE) << 10 | (bb & !AB_FILE) << 6 | (bb & !GH_FILE) >> 6
}

/// The squares a king's step away from the squares of `bb`.
pub open spec fn king_word(bb: u64) -> u64 {
    (bb >> 8 | bb << 8) | (bb & !A_FILE) >> 9 | (bb & !A_FILE) >> 1 | (bb & !A_FILE) << 7 | (bb
        & !H_FILE) >> 7 | (bb & !H_FILE) << 1 | (bb & !H_FILE) << 9
}

/// The squares that white pawns on the squares of `bb` attack.
pub open spec fn white_pawn_word(bb: u64) -> u64 {
    (bb & !A_FILE) << 7 | (bb & !H_FILE) << 9
}

/// The squares that black pawns on the squares of `bb` attack.
pub open spec fn black_pawn_word(bb: u64) -> u64 {
    (bb & !A_FILE) >> 9 | (bb & !H_FILE) >> 7
}

/// The squares that a knight on `s` attacks.
pub open spec fn knight_mask(s: int) -> u64 {
    knight_word(single(s))
}

/// The squares that a king on `s` attacks.
pub open spec fn king_mask(s: int) -> u64 {
    king_word(single(s))
}

/// The squares that a pawn of the given colour on `s` attacks.
pub open spec fn pawn_mask(color: Color, s: int) -> u64 {
    match color {
        Color::White => white_pawn_word(single(s)),
        Color::Black => black_pawn_word(single(s)),
    }
}

proof fn bv_knight(s: u64, t: u64)
    by (bit_vector)
    requires
        s < 64,
        t < 64,
    ensures
        (knight_word(1u64 << s) >> t) & 1 == 1 <==> ({
            let sf = s % 8;
            let sr = s / 8;
            let tf = t % 8;
            let tr = t / 8;
            ((sf + 1 == tf || tf + 1 == sf) && (sr + 2 == tr || tr + 2 == sr)) || ((sf + 2 == tf
                || tf + 2 == sf) && (sr + 1 == tr || tr + 1 == sr))
        }),
{
}

proof fn bv_king(s: u64, t: u64)
    by (bit_vector)
    requires
        s < 64,
        t < 64,
    ensures
        (king_word(1u64 << s) >> t) & 1 == 1 <==> ({
            let sf = s % 8;
            let sr = s / 8;
            let tf = t % 8;
            let tr = t / 8;
            s != t && (sf == tf || sf + 1 == tf || tf + 1 == sf) && (sr == tr || sr + 1 == tr || tr
                + 1 == sr)
        }),
{
}

proof fn bv_pawn(s: u64, t: u64)
    by (bit_vector)
    requires
        s < 64,
        t < 64,
    ensures
        (white_pawn_word(1u64 << s) >> t) & 1 == 1 <==> ({
            let sf = s % 8;
            let sr = s / 8;
            let tf = t % 8;
            let tr = t / 8;
            (sf + 1 == tf || tf + 1 == sf) && sr + 1 == tr
        }),
        (black_pawn_word(1u64 << s) >> t) & 1 == 1 <==> ({
            let sf = s % 8;
            let sr = s / 8;
            let tf = t % 8;
            let tr = t / 8;
            (sf + 1 == tf || tf + 1 == sf) && tr + 1 == sr
        }),
{
}

proof fn bv_no_square()
    by (bit_vector)
    ensures
        knight_word(0) == 0,
        king_word(0) == 0,
        white_pawn_word(0) == 0,
        black_pawn_word(0) == 0,
{
}

/// The knight's table holds exactly the knight's jumps.
pub proof fn lemma_knight_mask(s: int)
    ensures
        forall|t: int| #[trigger] bit(knight_mask(s), t) <==> knight_jump(s, t),
{
    assert forall|t: int| #[trigger] bit(knight_mask(s), t) <==> knight_jump(s, t) by {
        if on_board(t) {
            if on_board(s) {
                bv_knight(s as u64, t as u64);
            } else {
                bv_no_square();
            }
        }
    }
}

/// The king's table holds exactly the king's steps.
pub proof fn lemma_king_mask(s: int)
    ensures
        forall|t: int| #[trigger] bit(king_mask(s), t) <==> king_step(s, t),
{
    assert forall|t: int| #[trigger] bit(king_mask(s), t) <==> king_step(s, t) by {
        if on_board(t) {
            if on_board(s) {
                bv_king(s as u64, t as u64);
            } else {
                bv_no_square();
            }
        }
    }
}

/// The pawn's table holds exactly the pawn's attacks.
pub proof fn lemma_pawn_mask(color: Color, s: int)
    ensures
        forall|t: int| #[trigger] bit(pawn_mask(color, s), t) <==> pawn_attack(color, s, t),
{
    assert forall|t: int| #[trigger] bit(pawn_mask(color, s), t) <==> pawn_attack(
        color,
        s,
        t,
    ) by {
        if on_board(t) {
            if on_board(s) {
                bv_pawn(s as u64, t as u64);
            } else {
                bv_no_square();
            }
        }
    }
}

fn square_word(square: Square) -> (bb: u64)
    ensures
        bb == single(square.idx()),
{
    let i: usize = square.index();
    if i < 64 {
        1u64 << (i as u64)
    } else {
        0
    }
}

/// The squares that a knight on the given square attacks.
pub fn generate_knight_moves(square: Square) -> (b: Bitboard)
    ensures
        b.0 == knight_mask(square.idx()),
        forall|t: int| #[trigger] b.has(t) <==> knight_jump(square.idx(), t),
{
    let bb: u64 = square_word(square);
    let w: u64 = (bb & !A_FILE) >> 17 | (bb & !H_FILE) << 17 | (bb & !A_FILE) << 15 | (bb
        & !H_FILE) >> 15 | (bb & !AB_FILE) >> 10 | (bb & !GH_FILE) << 10 | (bb & !AB_FILE) << 6 | (
    bb & !GH_FILE) >> 6;
    proof {
        assert(w == knight_mask(square.idx()));
        lemma_knight_mask(square.idx());
    }
    Bitboard(w)
}

/// The squares that a king on the given square attacks.
pub fn generate_king_moves(square: Square) -> (b: Bitboard)
    ensures
        b.0 == king_mask(square.idx()),
        forall|t: int| #[trigger] b.has(t) <==> king_step(square.idx(), t),
{
    let bb: u64 = square_word(square);
    let w: u64 = (bb >> 8 | bb << 8) | (bb & !A_FILE) >> 9 | (bb & !A_FILE) >> 1 | (bb & !A_FILE)
        << 7 | (bb & !H_FILE) >> 7 | (bb & !H_FILE) << 1 | (bb & !H_FILE) << 9;
    proof {
        assert(w == king_mask(square.idx()));
        lemma_king_mask(square.idx());
    }
    Bitboard(w)
}

fn white_pawn_captures(square: Square) -> (b: Bitboard)
    ensures
        b.0 == pawn_mask(Color::White, square.idx()),
{
    let bb: u64 = square_word(square);
    Bitboard((bb & !A_FILE) << 7 | (bb & !H_FILE) << 9)
}

fn black_pawn_captures(square: Square) -> (b: Bitboard)
    ensures
        b.0 == pawn_mask(Color::Black, square.idx()),
{
    let bb: u64 = square_word(square);
    Bitboard((bb & !A_FILE) >> 9 | (bb & !H_FILE) >> 7)
}

/// The squares that a pawn of the given colour on the given square attacks.
pub fn pawn_captures(square: Square, color: Color) -> (b: Bitboard)
    ensures
        b.0 == pawn_mask(color, square.idx()),
        forall|t: int| #[trigger] b.has(t) <==> pawn_attack(color, square.idx(), t),
{
    proof {
        lemma_pawn_mask(color, square.idx());
    }
    match color {
        Color::White => white_pawn_captures(square),
        Color::Black => black_pawn_captures(square),
    }
}

/// Whether a step of `step` squares from `s` stays on the board and lands
/// within two king steps of `s`: a step that runs over the edge of the board
/// lands at least six files away and is refused.
pub open spec fn safe_step(s: int, step: int) -> bool {
    on_board(s) && on_board(s + step) && king_distance(s, s + step) <= 2
}

/// The squares that a slider on `s` attacks in the direction `step`: each
/// further square while the step is safe, up to and including the first
/// occupied one. A step of 0 goes nowhere.
pub open spec fn ray_mask(s: int, occ: u64, step: int) -> u64
    decreases
        (if step > 0 {
            64 - s
        } else {
            s + 1
        }),
{
    if step == 0 || !safe_step(s, step) {
        0
    } else {
        let to = s + step;
        if bit(occ, to) {
            single(to)
        } else {
            single(to) | ray_mask(to, occ, step)
        }
    }
}

/// The squares that a rook on `s` attacks on a board with the squares `occ` occupied.
pub open spec fn rook_mask(s: int, occ: u64) -> u64 {
    ray_mask(s, occ, 8) | ray_mask(s, occ, -8) | ray_mask(s, occ, 1) | ray_mask(s, occ, -1)
}

/// The squares that a bishop on `s` attacks on a board with the squares `occ` occupied.
pub open spec fn bishop_mask(s: int, occ: u64) -> u64 {
    ray_mask(s, occ, 9) | ray_mask(s, occ, -9) | ray_mask(s, occ, 7) | ray_mask(s, occ, -7)
}

/// The squares that a queen on `s` attacks on a board with the squares `occ` occupied.
pub open spec fn queen_mask(s: int, occ: u64) -> u64 {
    rook_mask(s, occ) | bishop_mask(s, occ)
}

/// The squares to which a pawn of the given colour on `s` may advance: one
/// rank ahead if that square is empty, and from the pawn's home rank two
/// ranks ahead if both squares are empty.
pub open spec fn pawn_push_mask(color: Color, s: int, occ: u64) -> u64 {
    let dir = if color == Color::White {
        8int
    } else {
        -8int
    };
    let home = if color == Color::White {
        1int
    } else {
        6int
    };
    let one = s + dir;
    let two = s + 2 * dir;
    if !on_board(s) || !on_board(one) || bit(occ, one) {
        0
    } else if rank_of(s) == home && !bit(occ, two) {
        single(one) | single(two)
    } else {
        single(one)
    }
}

/// The squares strictly between two squares on one rank, file or diagonal:
/// what a slider on each sees of the way to the other. Squares that share no
/// line have nothing between them.
pub open spec fn between_mask(a: int, b: int) -> u64 {
    if !on_board(a) || !on_board(b) {
        0
    } else if bit(bishop_mask(a, single(b)), b) {
        bishop_mask(a, single(b)) & bishop_mask(b, single(a))
    } else if bit(rook_mask(a, single(b)), b) {
        rook_mask(a, single(b)) & rook_mask(b, single(a))
    } else {
        0
    }
}

/// Whether the square of index `i` belongs to the set `w`.
pub fn test_bit(w: u64, i: usize) -> (r: bool)
    ensures
        r == bit(w, i as int),
{
    if i < 64 {
        (w >> (i as u64)) & 1 == 1
    } else {
        false
    }
}

/// The number of king steps between two squares.
pub fn distance(a: &Square, b: &Square) -> (d: usize)
    ensures
        d == king_distance(a.idx(), b.idx()),
{
    let af: usize = a.file();
    let bf: usize = b.file();
    let ar: usize = a.rank();
    let br: usize = b.rank();
    let df: usize = if af >= bf {
        af - bf
    } else {
        bf - af
    };
    let dr: usize = if ar >= br {
        ar - br
    } else {
        br - ar
    };
    if df >= dr {
        df
    } else {
        dr
    }
}

/// Whether a slider may step from the square by `step`.
pub fn safe_destination(square: &Square, step: i8) -> (r: bool)
    ensures
        r == safe_step(square.idx(), step as int),
{
    proof {
        Square::lemma_idx_injective(*square, Square::Null);
    }
    let to: Square = square.shift(step);
    let is_valid_square: bool = to.index() < 64;
    is_valid_square && distance(square, &to) <= 2
}

/// The squares that a slider on the square attacks in the direction `offset`
/// on a board with the given squares occupied. The first occupied square
/// belongs to the result, whatever stands on it.
pub fn sliding_attack(square: &Square, occupancy: &Bitboard, offset: i8) -> (b: Bitboard)
    ensures
        b.0 == ray_mask(square.idx(), occupancy.0, offset as int),
        is_king_stride(offset as int) ==> forall|t: int| #[trigger]
            b.has(t) <==> slides_to(square.idx(), occupancy.0, offset as int, t),
{
    proof {
        if is_king_stride(offset as int) {
            assert forall|t: int| #[trigger]
                bit(ray_mask(square.idx(), occupancy.0, offset as int), t) <==> slides_to(
                    square.idx(),
                    occupancy.0,
                    offset as int,
                    t,
                ) by {
                lemma_ray(square.idx(), occupancy.0, offset as int, t);
            }
        }
    }
    let oc: u64 = occupancy.0;
    let mut dir_bitboard: u64 = 0;
    let mut current_square: Square = *square;
    if offset == 0 {
        return Bitboard(0);
    }
    let ghost whole = ray_mask(square.idx(), oc, offset as int);
    proof {
        lemma_neutral(whole);
        lemma_neutral(0);
    }
    while safe_destination(&current_square, offset)
        invariant_except_break
            offset != 0,
            dir_bitboard | 0 == dir_bitboard,
            whole == dir_bitboard | ray_mask(current_square.idx(), oc, offset as int),
        ensures
            dir_bitboard == whole,
        decreases
            (if offset > 0 {
                64 - current_square.idx()
            } else {
                current_square.idx() + 1
            }),
    {
        let ghost from = current_square.idx();
        let ghost before = dir_bitboard;
        current_square = current_square.shift(offset);
        let cur_bb: u64 = square_word(current_square);
        dir_bitboard = dir_bitboard | cur_bb;
        proof {
            let rest = ray_mask(current_square.idx(), oc, offset as int);
            assert(before | (cur_bb | rest) == (before | cur_bb) | rest) by (bit_vector);
            lemma_neutral(dir_bitboard);
        }
        if test_bit(oc, current_square.index()) {
            break ;
        }
    }
    Bitboard(dir_bitboard)
}

/// The squares that a rook on the square attacks.
pub fn generate_rook_attacks(square: &Square, occupancy: &Bitboard) -> (b: Bitboard)
    ensures
        b.0 == rook_mask(square.idx(), occupancy.0),
        forall|t: int| #[trigger] b.has(t) <==> rook_sees(square.idx(), occupancy.0, t),
{
    proof {
        assert forall|t: int| #[trigger]
            bit(rook_mask(square.idx(), occupancy.0), t) <==> rook_sees(
                square.idx(),
                occupancy.0,
                t,
            ) by {
            lemma_rook(square.idx(), occupancy.0, t);
        }
    }
    let north_bitboard = sliding_attack(square, occupancy, 8);
    let south_bitboard = sliding_attack(square, occupancy, -8);
    let east_bitboard = sliding_attack(square, occupancy, 1);
    let west_bitboard = sliding_attack(square, occupancy, -1);
    Bitboard(north_bitboard.0 | south_bitboard.0 | east_bitboard.0 | west_bitboard.0)
}

/// The squares that a bishop on the square attacks.
pub fn generate_bishop_attacks(square: &Square, occupancy: &Bitboard) -> (b: Bitboard)
    ensures
        b.0 == bishop_mask(square.idx(), occupancy.0),
        forall|t: int| #[trigger] b.has(t) <==> bishop_sees(square.idx(), occupancy.0, t),
{
    proof {
        assert forall|t: int| #[trigger]
            bit(bishop_mask(square.idx(), occupancy.0), t) <==> bishop_sees(
                square.idx(),
                occupancy.0,
                t,
            ) by {
            lemma_bishop(square.idx(), occupancy.0, t);
        }
    }
    let ne_bitboard = sliding_attack(square, occupancy, 9);
    let sw_bitboard = sliding_attack(square, occupancy, -9);
    let nw_bitboard = sliding_attack(square, occupancy, 7);
    let se_bitboard = sliding_attack(square, occupancy, -7);
    Bitboard(ne_bitboard.0 | sw_bitboard.0 | nw_bitboard.0 | se_bitboard.0)
}

/// The squares that a queen on the square attacks: a rook's and a bishop's.
pub fn generate_queen_attacks(square: &Square, occupancy: &Bitboard) -> (b: Bitboard)
    ensures
        b.0 == queen_mask(square.idx(), occupancy.0),
        forall|t: int| #[trigger]
            b.has(t) <==> rook_sees(square.idx(), occupancy.0, t) || bishop_sees(
                square.idx(),
                occupancy.0,
                t,
            ),
{
    let rook = generate_rook_attacks(square, occupancy);
    let bishop = generate_bishop_attacks(square, occupancy);
    let queen = Bitboard(rook.0 | bishop.0);
    assert forall|t: int| #[trigger]
        queen.has(t) <==> rook_sees(square.idx(), occupancy.0, t) || bishop_sees(
            square.idx(),
            occupancy.0,
            t,
        ) by {
        assert(queen.has(t) == (rook.has(t) || bishop.has(t)));
    }
    queen
}

fn pawn_advances(square: &Square, occupancy: &Bitboard, color: Color) -> (b: Bitboard)
    ensures
        b.0 == pawn_push_mask(color, square.idx(), occupancy.0),
{
    let dir: i8 = match color {
        Color::White => 8,
        Color::Black => -8,
    };
    let home: usize = match color {
        Color::White => 1,
        Color::Black => 6,
    };
    proof {
        Square::lemma_idx_injective(*square, Square::Null);
    }
    let one: Square = square.shift(dir);
    if one.index() >= 64 || test_bit(occupancy.0, one.index()) {
        return Bitboard(0);
    }
    let mut word: u64 = square_word(one);
    if square.rank() == home {
        let two: Square = one.shift(dir);
        if !test_bit(occupancy.0, two.index()) {
            word = word | square_word(two);
        }
    }
    Bitboard(word)
}

/// The squares to which a white pawn on the square may advance.
pub fn white_pawn_advances(square: &Square, occupancy: &Bitboard) -> (b: Bitboard)
    ensures
        b.0 == pawn_push_mask(Color::White, square.idx(), occupancy.0),
{
    pawn_advances(square, occupancy, Color::White)
}

/// The squares to which a black pawn on the square may advance.
pub fn black_pawn_advances(square: &Square, occupancy: &Bitboard) -> (b: Bitboard)
    ensures
        b.0 == pawn_push_mask(Color::Black, square.idx(), occupancy.0),
{
    pawn_advances(square, occupancy, Color::Black)
}

/// The table of the squares between each pair of squares.
pub fn generate_betweeners() -> (table: [[Bitboard; 64]; 64])
    ensures
        forall|a: int, b: int|
            0 <= a < 64 && 0 <= b < 64 ==> (#[trigger] table[a][b]).0 == between_mask(a, b),
        forall|a: int, b: int, t: int|
            0 <= a < 64 && 0 <= b < 64 ==> (#[trigger] table[a][b].has(t) <==> lies_between(
                a,
                b,
                t,
            )),
{
    proof {
        assert forall|a: int, b: int, t: int| #[trigger]
            bit(between_mask(a, b), t) <==> lies_between(a, b, t) by {
            lemma_between(a, b, t);
        }
    }
    let mut between_bbs: [[Bitboard; 64]; 64] = [[Bitboard(0); 64]; 64];
    let mut s1_index: usize = 0;
    while s1_index < 64
        invariant
            s1_index <= 64,
            forall|a: int, b: int|
                0 <= a < s1_index && 0 <= b < 64 ==> (#[trigger] between_bbs[a][b]).0
                    == between_mask(a, b),
        decreases 64 - s1_index,
    {
        let s1 = Square::new(s1_index as u8);
        let o1 = Bitboard(square_word(s1));
        let mut row: [Bitboard; 64] = [Bitboard(0); 64];
        let mut s2_index: usize = 0;
        while s2_index < 64
            invariant
                s2_index <= 64,
                s1_index < 64,
                s1.idx() == s1_index,
                o1.0 == single(s1_index as int),
                forall|b: int|
                    0 <= b < s2_index ==> (#[trigger] row[b]).0 == between_mask(
                        s1_index as int,
                        b,
                    ),
            decreases 64 - s2_index,
        {
            let s2 = Square::new(s2_index as u8);
            let o2 = Bitboard(square_word(s2));
            let a1 = generate_bishop_attacks(&s1, &o2);
            if test_bit(a1.0, s2_index) {
                let a2 = generate_bishop_attacks(&s2, &o1);
                row[s2_index] = Bitboard(a1.0 & a2.0);
            } else {
                let r1 = generate_rook_attacks(&s1, &o2);
                if test_bit(r1.0, s2_index) {
                    let r2 = generate_rook_attacks(&s2, &o1);
                    row[s2_index] = Bitboard(r1.0 & r2.0);
                } else {
                    row[s2_index] = Bitboard(0);
                }
            }
            s2_index = s2_index + 1;
        }
        between_bbs[s1_index] = row;
        s1_index = s1_index + 1;
    }
    between_bbs
}

/// The table that holds, for each square, what the generator gives for it.
pub fn create_map<T: Fn(Square) -> Bitboard>(generator: T) -> (map: [Bitboard; 64])
    requires
        forall|s: Square| generator.requires((s,)),
    ensures
        forall|i: int| 0 <= i < 64 ==> generator.ensures((Square::at(i),), #[trigger] map[i]),
{
    let mut map: [Bitboard; 64] = [Bitboard(0); 64];
    let mut i: usize = 0;
    while i < 64
        invariant
            i <= 64,
            forall|s: Square| generator.requires((s,)),
            forall|k: int| 0 <= k < i ==> generator.ensures((Square::at(k),), #[trigger] map[k]),
        decreases 64 - i,
    {
        map[i] = generator(Square::new(i as u8));
        i = i + 1;
    }
    map
}

/// The tables that are computed once and then only read: what a knight, a
/// king and a pawn of each colour attack from each square, and the squares
/// between each pair of squares.
#[derive(Copy, Clone)]
pub struct StandardBitboards {
    pub knight_attacks: [Bitboard; 64],
    pub king_attacks: [Bitboard; 64],
    pub pawn_captures: [[Bitboard; 64]; 2],
    pub between: [[Bitboard; 64]; 64],
}

impl StandardBitboards {
    /// Whether every entry of the tables is what its name says.
    pub open spec fn wf(&self) -> bool {
        &&& forall|i: int| 0 <= i < 64 ==> (#[trigger] self.knight_attacks[i]).0 == knight_mask(i)
        &&& forall|i: int| 0 <= i < 64 ==> (#[trigger] self.king_attacks[i]).0 == king_mask(i)
        &&& forall|i: int|
            0 <= i < 64 ==> (#[trigger] self.pawn_captures[0][i]).0 == pawn_mask(Color::White, i)
        &&& forall|i: int|
            0 <= i < 64 ==> (#[trigger] self.pawn_captures[1][i]).0 == pawn_mask(Color::Black, i)
        &&& forall|a: int, b: int|
            0 <= a < 64 && 0 <= b < 64 ==> (#[trigger] self.between[a][b]).0 == between_mask(a, b)
    }

    /// Computes the tables.
    pub fn new() -> (t: StandardBitboards)
        ensures
            t.wf(),
    {
        let knight_attacks = create_map(generate_knight_moves);
        let king_attacks = create_map(generate_king_moves);
        let white = create_map(white_pawn_captures);
        let black = create_map(black_pawn_captures);
        proof {
            assert forall|i: int| 0 <= i < 64 implies (#[trigger] knight_attacks[i]).0
                == knight_mask(i) by {
                Square::lemma_at(i);
            }
            assert forall|i: int| 0 <= i < 64 implies (#[trigger] king_attacks[i]).0 == king_mask(
                i,
            ) by {
                Square::lemma_at(i);
            }
            assert forall|i: int| 0 <= i < 64 implies (#[trigger] white[i]).0 == pawn_mask(
                Color::White,
                i,
            ) by {
                Square::lemma_at(i);
            }
            assert forall|i: int| 0 <= i < 64 implies (#[trigger] black[i]).0 == pawn_mask(
                Color::Black,
                i,
            ) by {
                Square::lemma_at(i);
            }
        }
        let pawn_captures = [white, black];
        let between = generate_betweeners();
        assert(pawn_captures[0] == white);
        assert(pawn_captures[1] == black);
        StandardBitboards { knight_attacks, king_attacks, pawn_captures, between }
    }
}

impl Default for StandardBitboards {
    fn default() -> (t: StandardBitboards)
        ensures
            t.wf(),
    {
        StandardBitboards::new()
    }
}

} // verus!
