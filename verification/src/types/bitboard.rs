use vstd::prelude::*;
use vstd::std_specs::convert::FromSpecImpl;
use vstd::std_specs::ops::AddSpecImpl;
use vstd::std_specs::ops::BitAndSpecImpl;
use vstd::std_specs::ops::MulSpecImpl;
use vstd::std_specs::ops::SubSpecImpl;
use vstd::std_specs::ops::BitOrSpecImpl;
use vstd::std_specs::ops::BitXorSpecImpl;
use vstd::std_specs::ops::NotSpecImpl;
use crate::bits::bit;
use crate::bits::bits_of;
use crate::bits::drop_lowest;
use crate::bits::group_bit_lemmas;
use crate::bits::lemma_bits_of_members;
use crate::bits::lemma_bits_of_unfold;
use crate::bits::lemma_drop_lowest;
use crate::bits::lemma_bits_of_zero;
use crate::bits::lemma_lowest;
use crate::bits::lemma_neutral;
use crate::bits::lowest;
use crate::bits::single;
use crate::types::rankfile::File;
use crate::types::rankfile::Rank;
use crate::types::square::Square;

verus! {

broadcast use group_bit_lemmas;

/// A set of squares, one bit for each: bit `i` is set exactly when the square
/// of index `i` belongs to the set.
#[derive(Copy, Clone, PartialEq, Eq, Structural, PartialOrd, Debug)]
pub struct Bitboard(pub u64);

/// The word that holds the squares of the a-file.
pub const FILE_A: u64 = 0x0101_0101_0101_0101;

/// The word that holds the squares of the first rank.
pub const RANK_1: u64 = 0xff;

impl Bitboard {
    /// Whether the square of index `i` belongs to the set.
    pub open spec fn has(self, i: int) -> bool {
        bit(self.0, i)
    }

    /// The indices of the squares of the set, in increasing order.
    pub open spec fn squares(self) -> Seq<int> {
        bits_of(self.0)
    }

    /// Whether the set holds no square.
    pub fn is_empty(self) -> (r: bool)
        ensures
            r == (self.0 == 0),
    {
        self.0 == 0
    }

    /// The number of squares in the set.
    pub fn count(self) -> (n: usize)
        ensures
            n == self.squares().len(),
    {
        let mut rest: u64 = self.0;
        let mut n: usize = 0;
        proof {
            lemma_bits_of_members(self.0);
        }
        while rest != 0
            invariant
                bits_of(self.0).len() == n + bits_of(rest).len(),
                n + bits_of(rest).len() <= 64,
            decreases rest,
        {
            proof {
                lemma_bits_of_unfold(rest);
                lemma_drop_lowest(rest);
            }
            rest = rest & (rest - 1);
            n = n + 1;
        }
        proof {
            lemma_bits_of_zero();
        }
        n
    }

    /// The squares of a rank.
    pub fn rank(rank: Rank) -> (b: Bitboard)
        ensures
            forall|i: int| #[trigger] b.has(i) <==> 0 <= i < 64 && i / 8 == rank.idx(),
    {
        let r: u64 = rank.index() as u64;
        let w: u64 = RANK_1 << (8 * r);
        proof {
            assert forall|i: int| #[trigger] bit(w, i) <==> 0 <= i < 64 && i / 8 == rank.idx() by {
                if 0 <= i < 64 {
                    let k: u64 = i as u64;
                    assert(((0xffu64 << (8 * r)) >> k) & 1 == 1 <==> k / 8 == r) by (bit_vector)
                        requires
                            r < 8,
                            k < 64,
                    ;
                }
            }
        }
        Bitboard(w)
    }

    /// The set of all 64 squares.
    pub fn universal() -> (b: Bitboard)
        ensures
            b.0 == u64::MAX,
            forall|i: int| #[trigger] b.has(i) <==> 0 <= i < 64,
    {
        Bitboard(u64::MAX)
    }

    /// The squares of a file.
    pub fn file(file: File) -> (b: Bitboard)
        ensures
            forall|i: int| #[trigger] b.has(i) <==> 0 <= i < 64 && i % 8 == file.idx(),
    {
        let f: u64 = file.index() as u64;
        let w: u64 = FILE_A << f;
        proof {
            assert forall|i: int| #[trigger] bit(w, i) <==> 0 <= i < 64 && i % 8 == file.idx() by {
                if 0 <= i < 64 {
                    let k: u64 = i as u64;
                    assert(((0x0101_0101_0101_0101u64 << f) >> k) & 1 == 1 <==> k % 8 == f)
                        by (bit_vector)
                        requires
                            f < 8,
                            k < 64,
                    ;
                }
            }
        }
        Bitboard(w)
    }

    /// The square of lowest index in the set, `Null` for the empty set.
    pub fn lsb(self) -> (s: Square)
        ensures
            s == Square::at(lowest(self.0)),
            s.idx() == lowest(self.0),
            self.0 != 0 ==> self.has(s.idx()),
            self.0 == 0 <==> s == Square::Null,
    {
        proof {
            lemma_lowest(self.0);
            Square::lemma_idx_injective(Square::at(lowest(self.0)), Square::Null);
        }
        let z: u32 = self.0.trailing_zeros();
        Square::new(z as u8)
    }

    /// Takes the square of lowest index out of the set and returns it. The
    /// empty set stays empty and gives `Null`.
    pub fn pop(&mut self) -> (s: Square)
        ensures
            s == Square::at(lowest(old(self).0)),
            s.idx() == lowest(old(self).0),
            old(self).0 == 0 <==> s == Square::Null,
            final(self).0 == drop_lowest(old(self).0),
            old(self).0 != 0 ==> old(self).squares() == seq![s.idx()] + final(self).squares(),
            forall|i: int| #[trigger] final(self).has(i) == (old(self).has(i) && i != s.idx()),
    {
        let s = self.lsb();
        proof {
            lemma_drop_lowest(self.0);
            if self.0 != 0 {
                lemma_bits_of_unfold(self.0);
            }
        }
        if self.0 != 0 {
            self.0 = self.0 & (self.0 - 1);
        }
        s
    }

    /// Puts a square into the set. `Null` changes nothing.
    pub fn set(&mut self, square: Square)
        ensures
            final(self).0 == old(self).0 | single(square.idx()),
            forall|i: int| #[trigger]
                final(self).has(i) == (old(self).has(i) || (i == square.idx() && i < 64)),
    {
        let i: usize = square.index();
        if i < 64 {
            self.0 = self.0 | (1u64 << (i as u64));
        } else {
            proof {
                lemma_neutral(self.0);
            }
        }
        assert(self.0 == old(self).0 | single(square.idx()));
    }

    /// Takes a square out of the set. `Null` changes nothing.
    pub fn clear(&mut self, square: Square)
        ensures
            final(self).0 == old(self).0 & !single(square.idx()),
            forall|i: int| #[trigger] final(self).has(i) == (old(self).has(i) && i != square.idx()),
    {
        let i: usize = square.index();
        if i < 64 {
            self.0 = self.0 & !(1u64 << (i as u64));
        } else {
            proof {
                lemma_neutral(self.0);
            }
        }
        assert(self.0 == old(self).0 & !single(square.idx()));
    }

    /// The squares of the set, in increasing order.
    pub fn to_vec(self) -> (v: Vec<Square>)
        ensures
            v@.len() == self.squares().len(),
            forall|k: int| 0 <= k < v@.len() ==> (#[trigger] v@[k]).idx() == self.squares()[k],
    {
        let mut rest = self;
        let mut v: Vec<Square> = Vec::new();
        while rest.0 != 0
            invariant
                self.squares() == v@.map_values(|s: Square| s.idx()) + rest.squares(),
            decreases rest.0,
        {
            let ghost before = v@.map_values(|s: Square| s.idx());
            proof {
                lemma_drop_lowest(rest.0);
            }
            let s = rest.pop();
            v.push(s);
            assert(v@.map_values(|s: Square| s.idx()) =~= before.push(s.idx()));
            assert(before.push(s.idx()) + rest.squares() =~= before + (seq![s.idx()]
                + rest.squares()));
        }
        proof {
            lemma_bits_of_zero();
        }
        assert(self.squares() =~= v@.map_values(|s: Square| s.idx()));
        v
    }
}

impl Default for Bitboard {
    fn default() -> (b: Bitboard)
        ensures
            b.0 == 0,
    {
        Bitboard(0)
    }
}

impl From<Square> for Bitboard {
    fn from(square: Square) -> (b: Bitboard) {
        let i: usize = square.index();
        if i < 64 {
            Bitboard(1u64 << (i as u64))
        } else {
            Bitboard(0)
        }
    }
}

impl FromSpecImpl<Square> for Bitboard {
    open spec fn obeys_from_spec() -> bool {
        true
    }

    open spec fn from_spec(square: Square) -> Bitboard {
        Bitboard(single(square.idx()))
    }
}

impl From<File> for Bitboard {
    fn from(file: File) -> (b: Bitboard) {
        Bitboard(FILE_A << (file.index() as u64))
    }
}

impl FromSpecImpl<File> for Bitboard {
    open spec fn obeys_from_spec() -> bool {
        true
    }

    open spec fn from_spec(file: File) -> Bitboard {
        Bitboard(FILE_A << (file.idx() as u64))
    }
}

impl From<Rank> for Bitboard {
    fn from(rank: Rank) -> (b: Bitboard) {
        Bitboard(RANK_1 << (8 * (rank.index() as u64)))
    }
}

impl FromSpecImpl<Rank> for Bitboard {
    open spec fn obeys_from_spec() -> bool {
        true
    }

    open spec fn from_spec(rank: Rank) -> Bitboard {
        Bitboard(RANK_1 << ((8 * rank.idx()) as u64))
    }
}

impl core::ops::BitAnd for Bitboard {
    type Output = Bitboard;

    fn bitand(self, rhs: Bitboard) -> (r: Bitboard) {
        Bitboard(self.0 & rhs.0)
    }
}

impl BitAndSpecImpl for Bitboard {
    open spec fn obeys_bitand_spec() -> bool {
        true
    }

    open spec fn bitand_req(self, rhs: Bitboard) -> bool {
        true
    }

    open spec fn bitand_spec(self, rhs: Bitboard) -> Bitboard {
        Bitboard(self.0 & rhs.0)
    }
}

impl core::ops::BitOr for Bitboard {
    type Output = Bitboard;

    fn bitor(self, rhs: Bitboard) -> (r: Bitboard) {
        Bitboard(self.0 | rhs.0)
    }
}

impl BitOrSpecImpl for Bitboard {
    open spec fn obeys_bitor_spec() -> bool {
        true
    }

    open spec fn bitor_req(self, rhs: Bitboard) -> bool {
        true
    }

    open spec fn bitor_spec(self, rhs: Bitboard) -> Bitboard {
        Bitboard(self.0 | rhs.0)
    }
}

impl core::ops::BitXor for Bitboard {
    type Output = Bitboard;

    fn bitxor(self, rhs: Bitboard) -> (r: Bitboard) {
        Bitboard(self.0 ^ rhs.0)
    }
}

impl BitXorSpecImpl for Bitboard {
    open spec fn obeys_bitxor_spec() -> bool {
        true
    }

    open spec fn bitxor_req(self, rhs: Bitboard) -> bool {
        true
    }

    open spec fn bitxor_spec(self, rhs: Bitboard) -> Bitboard {
        Bitboard(self.0 ^ rhs.0)
    }
}

impl core::ops::Add for Bitboard {
    type Output = Bitboard;

    fn add(self, rhs: Bitboard) -> (r: Bitboard) {
        Bitboard(self.0 + rhs.0)
    }
}

impl AddSpecImpl for Bitboard {
    open spec fn obeys_add_spec() -> bool {
        true
    }

    open spec fn add_req(self, rhs: Bitboard) -> bool {
        self.0 + rhs.0 <= u64::MAX
    }

    open spec fn add_spec(self, rhs: Bitboard) -> Bitboard {
        Bitboard((self.0 + rhs.0) as u64)
    }
}

impl core::ops::Sub for Bitboard {
    type Output = Bitboard;

    fn sub(self, rhs: Bitboard) -> (r: Bitboard) {
        Bitboard(self.0 - rhs.0)
    }
}

impl SubSpecImpl for Bitboard {
    open spec fn obeys_sub_spec() -> bool {
        true
    }

    open spec fn sub_req(self, rhs: Bitboard) -> bool {
        self.0 >= rhs.0
    }

    open spec fn sub_spec(self, rhs: Bitboard) -> Bitboard {
        Bitboard((self.0 - rhs.0) as u64)
    }
}

impl core::ops::Mul for Bitboard {
    type Output = Bitboard;

    fn mul(self, rhs: Bitboard) -> (r: Bitboard) {
        Bitboard(self.0 * rhs.0)
    }
}

impl MulSpecImpl for Bitboard {
    open spec fn obeys_mul_spec() -> bool {
        true
    }

    open spec fn mul_req(self, rhs: Bitboard) -> bool {
        self.0 * rhs.0 <= u64::MAX
    }

    open spec fn mul_spec(self, rhs: Bitboard) -> Bitboard {
        Bitboard((self.0 * rhs.0) as u64)
    }
}

impl core::ops::Not for Bitboard {
    type Output = Bitboard;

    fn not(self) -> (r: Bitboard) {
        Bitboard(!self.0)
    }
}

impl NotSpecImpl for Bitboard {
    open spec fn obeys_not_spec() -> bool {
        true
    }

    open spec fn not_req(self) -> bool {
        true
    }

    open spec fn not_spec(self) -> Bitboard {
        Bitboard(!self.0)
    }
}

impl core::ops::BitAndAssign for Bitboard {
    fn bitand_assign(&mut self, rhs: Bitboard)
        ensures
            final(self).0 == old(self).0 & rhs.0,
    {
        self.0 = self.0 & rhs.0;
    }
}

impl core::ops::BitOrAssign for Bitboard {
    fn bitor_assign(&mut self, rhs: Bitboard)
        ensures
            final(self).0 == old(self).0 | rhs.0,
    {
        self.0 = self.0 | rhs.0;
    }
}

impl core::ops::BitXorAssign for Bitboard {
    fn bitxor_assign(&mut self, rhs: Bitboard)
        ensures
            final(self).0 == old(self).0 ^ rhs.0,
    {
        self.0 = self.0 ^ rhs.0;
    }
}

} // verus!
