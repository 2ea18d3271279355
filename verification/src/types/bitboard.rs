//! Sets of squares held in one 128-bit word.
//!
//! A `Bitboard` is viewed as the set of positions of its ones. The board's
//! 81 squares are positions `0..81`; the operations that must stay inside
//! the board say so in their contracts.

use crate::types::bits::bit_set;
use crate::types::bits::has_bit;
use crate::types::bits::high_half;
use crate::types::bits::is_highest;
use crate::types::bits::is_lowest;
use crate::types::bits::lemma_and;
use crate::types::bits::lemma_clear_lowest;
use crate::types::bits::lemma_finite;
use crate::types::bits::lemma_highest;
use crate::types::bits::lemma_low_mask;
use crate::types::bits::lemma_lowest;
use crate::types::bits::lemma_not;
use crate::types::bits::lemma_or;
use crate::types::bits::lemma_shl;
use crate::types::bits::lemma_shr;
use crate::types::bits::lemma_single;
use crate::types::bits::lemma_xor;
use crate::types::bits::lemma_zero;
use crate::types::bits::lemma_zero_iff_empty;
use crate::types::bits::low_half;
use crate::types::bits::lowest_index;
use crate::text::string_from_chars;
use crate::types::square::Square;
use vstd::prelude::*;
use vstd::set_lib::set_int_range;
use vstd::std_specs::ops::BitAndSpecImpl;
use vstd::std_specs::ops::BitOrSpecImpl;
use vstd::std_specs::ops::BitXorSpecImpl;
use vstd::std_specs::ops::NotSpecImpl;
use vstd::std_specs::ops::ShlSpecImpl;
use vstd::std_specs::ops::ShrSpecImpl;

verus! {

/// The squares of file 0: positions 0, 9, 18, ..., 72.
pub const FILEMASK: u128 =
    0b1_000000001_000000001_000000001_000000001_000000001_000000001_000000001_000000001;

/// The squares of rank 0: positions 0 to 8.
pub const RANKMASK: u128 = 0b111111111;

/// All 81 squares of the board: positions 0 to 80.
pub const BOARDMASK: u128 = 0x1_ffff_ffff_ffff_ffff_ffff;

/// A set of squares, one bit for each.
#[derive(Debug, Copy, Clone, PartialEq, Eq, Structural)]
pub struct Bitboard(pub u128);

impl View for Bitboard {
    type V = Set<int>;

    /// The positions of the word's ones.
    open spec fn view(&self) -> Set<int> {
        bit_set(self.0)
    }
}

/// The squares of the board that lie on the file of a member of `s`, at that
/// member or at a higher index.
pub open spec fn filled_up(s: Set<int>) -> Set<int> {
    Set::new(
        |i: int| 0 <= i < 81 && exists|t: int| #[trigger] s.contains(t) && t <= i && (i - t) % 9 == 0,
    )
}

/// The squares of the board that lie on the file of a member of `s`, at that
/// member or at a lower index.
pub open spec fn filled_down(s: Set<int>) -> Set<int> {
    Set::new(
        |i: int| 0 <= i < 81 && exists|t: int| #[trigger] s.contains(t) && i <= t && (t - i) % 9 == 0,
    )
}

/// The squares of the board on file `f`.
pub open spec fn file_squares(f: int) -> Set<int> {
    Set::new(|i: int| 0 <= i < 81 && i % 9 == f)
}

/// The squares of the board on rank `r`.
pub open spec fn rank_squares(r: int) -> Set<int> {
    Set::new(|i: int| 0 <= i < 81 && i / 9 == r)
}

/// The squares of the board.
pub open spec fn board_squares() -> Set<int> {
    set_int_range(0, 81)
}

proof fn bv_constants(i: u128)
    by (bit_vector)
    requires
        i < 128,
    ensures
        (((1u128 << 81) - 1) as u128) == 0x1_ffff_ffff_ffff_ffff_ffffu128,
        (((1u128 << 9) - 1) as u128) == 0x1ffu128,
        (0x1008040201008040201u128 >> i) & 1 == 1 <==> (i == 0 || i == 9 || i == 18 || i == 27 || i
            == 36 || i == 45 || i == 54 || i == 63 || i == 72),
{
}

proof fn bv_words(x: u128)
    by (bit_vector)
    ensures
        x >> 64 == x / 0x1_0000_0000_0000_0000,
        x & 0xffff_ffff_ffff_ffff == x % 0x1_0000_0000_0000_0000,
        0u128 & x == 0,
{
}

/// The ones of the board mask are the 81 squares.
pub proof fn lemma_board_mask()
    ensures
        Bitboard(BOARDMASK)@ == board_squares(),
{
    bv_constants(0);
    lemma_low_mask(81);
}

/// Within distance `9 * n` above a member of the set and on its file.
spec fn reach_up(x: u128, i: int, n: int) -> bool {
    exists|t: int| #[trigger] has_bit(x, t) && t <= i && i - t < 9 * n && (i - t) % 9 == 0
}

/// Within distance `9 * n` below a member of the set and on its file.
spec fn reach_down(x: u128, i: int, n: int) -> bool {
    exists|t: int| #[trigger] has_bit(x, t) && i <= t && t - i < 9 * n && (t - i) % 9 == 0
}

proof fn lemma_fill_up_step(x: u128, y: u128, z: u128, n: int)
    requires
        1 <= n <= 8,
        forall|i: int| #[trigger] has_bit(y, i) <==> 0 <= i < 128 && reach_up(x, i, n),
        z == y | (y << ((9 * n) as u128)),
    ensures
        forall|i: int| #[trigger] has_bit(z, i) <==> 0 <= i < 128 && reach_up(x, i, 2 * n),
{
    lemma_or(y, y << ((9 * n) as u128));
    lemma_shl(y, (9 * n) as u128);
    assert forall|i: int| #[trigger] has_bit(z, i) <==> 0 <= i < 128 && reach_up(x, i, 2 * n) by {
        assert(has_bit(z, i) == bit_set(z).contains(i));
        assert(has_bit(z, i) <==> has_bit(y, i) || has_bit(y << ((9 * n) as u128), i));
        if has_bit(y, i) {
            let t = choose|t: int| #[trigger]
                has_bit(x, t) && t <= i && i - t < 9 * n && (i - t) % 9 == 0;
            assert(has_bit(x, t) && t <= i && i - t < 9 * (2 * n) && (i - t) % 9 == 0);
        }
        if has_bit(y << ((9 * n) as u128), i) {
            assert(has_bit(y, i - 9 * n));
            let t = choose|t: int| #[trigger]
                has_bit(x, t) && t <= i - 9 * n && i - 9 * n - t < 9 * n && (i - 9 * n - t) % 9
                    == 0;
            assert(has_bit(x, t) && t <= i && i - t < 9 * (2 * n) && (i - t) % 9 == 0);
        }
        if 0 <= i < 128 && reach_up(x, i, 2 * n) {
            let t = choose|t: int| #[trigger]
                has_bit(x, t) && t <= i && i - t < 9 * (2 * n) && (i - t) % 9 == 0;
            if i - t < 9 * n {
                assert(reach_up(x, i, n));
            } else {
                assert(has_bit(x, t) && t <= i - 9 * n && i - 9 * n - t < 9 * n && (i - 9 * n - t)
                    % 9 == 0);
                assert(reach_up(x, i - 9 * n, n));
                assert(has_bit(y, i - 9 * n));
            }
        }
    }
}

proof fn lemma_fill_down_step(x: u128, y: u128, z: u128, n: int)
    requires
        1 <= n <= 8,
        forall|i: int| #[trigger] has_bit(y, i) <==> 0 <= i < 128 && reach_down(x, i, n),
        z == y | (y >> ((9 * n) as u128)),
    ensures
        forall|i: int| #[trigger] has_bit(z, i) <==> 0 <= i < 128 && reach_down(x, i, 2 * n),
{
    lemma_or(y, y >> ((9 * n) as u128));
    lemma_shr(y, (9 * n) as u128);
    assert forall|i: int| #[trigger] has_bit(z, i) <==> 0 <= i < 128 && reach_down(x, i, 2 * n) by {
        assert(has_bit(z, i) == bit_set(z).contains(i));
        assert(has_bit(z, i) <==> has_bit(y, i) || has_bit(y >> ((9 * n) as u128), i));
        if has_bit(y, i) {
            let t = choose|t: int| #[trigger]
                has_bit(x, t) && i <= t && t - i < 9 * n && (t - i) % 9 == 0;
            assert(has_bit(x, t) && i <= t && t - i < 9 * (2 * n) && (t - i) % 9 == 0);
        }
        if has_bit(y >> ((9 * n) as u128), i) {
            assert(has_bit(y, i + 9 * n));
            let t = choose|t: int| #[trigger]
                has_bit(x, t) && i + 9 * n <= t && t - (i + 9 * n) < 9 * n && (t - (i + 9 * n)) % 9
                    == 0;
            assert(has_bit(x, t) && i <= t && t - i < 9 * (2 * n) && (t - i) % 9 == 0);
        }
        if 0 <= i < 128 && reach_down(x, i, 2 * n) {
            let t = choose|t: int| #[trigger]
                has_bit(x, t) && i <= t && t - i < 9 * (2 * n) && (t - i) % 9 == 0;
            if t - i < 9 * n {
                assert(reach_down(x, i, n));
            } else {
                assert(has_bit(x, t) && i + 9 * n <= t && t - (i + 9 * n) < 9 * n && (t - (i + 9
                    * n)) % 9 == 0);
                assert(reach_down(x, i + 9 * n, n));
                assert(has_bit(y, i + 9 * n));
            }
        }
    }
}

proof fn lemma_fill_up_chain(b0: u128, b1: u128, b2: u128, b3: u128, b4: u128)
    requires
        b1 == b0 | (b0 << 9u128),
        b2 == b1 | (b1 << 18u128),
        b3 == b2 | (b2 << 36u128),
        b4 == b3 | (b3 << 72u128),
    ensures
        forall|i: int| #[trigger] has_bit(b4, i) <==> 0 <= i < 128 && reach_up(b0, i, 16),
{
    assert forall|i: int| #[trigger] has_bit(b0, i) <==> 0 <= i < 128 && reach_up(b0, i, 1) by {
        if has_bit(b0, i) {
            assert(has_bit(b0, i) && i <= i && i - i < 9 && (i - i) % 9 == 0);
        }
    }
    lemma_fill_up_step(b0, b0, b1, 1);
    lemma_fill_up_step(b0, b1, b2, 2);
    lemma_fill_up_step(b0, b2, b3, 4);
    lemma_fill_up_step(b0, b3, b4, 8);
}

proof fn lemma_fill_down_chain(b0: u128, b1: u128, b2: u128, b3: u128, b4: u128)
    requires
        b1 == b0 | (b0 >> 9u128),
        b2 == b1 | (b1 >> 18u128),
        b3 == b2 | (b2 >> 36u128),
        b4 == b3 | (b3 >> 72u128),
    ensures
        forall|i: int| #[trigger] has_bit(b4, i) <==> 0 <= i < 128 && reach_down(b0, i, 16),
{
    assert forall|i: int| #[trigger] has_bit(b0, i) <==> 0 <= i < 128 && reach_down(b0, i, 1) by {
        if has_bit(b0, i) {
            assert(has_bit(b0, i) && i <= i && i - i < 9 && (i - i) % 9 == 0);
        }
    }
    lemma_fill_down_step(b0, b0, b1, 1);
    lemma_fill_down_step(b0, b1, b2, 2);
    lemma_fill_down_step(b0, b2, b3, 4);
    lemma_fill_down_step(b0, b3, b4, 8);
}

proof fn lemma_reach_up_all(x: u128, i: int)
    requires
        0 <= i < 81,
    ensures
        reach_up(x, i, 16) <==> filled_up(bit_set(x)).contains(i),
{
    if reach_up(x, i, 16) {
        let t = choose|t: int| #[trigger]
            has_bit(x, t) && t <= i && i - t < 9 * 16 && (i - t) % 9 == 0;
        assert(bit_set(x).contains(t));
    }
    if filled_up(bit_set(x)).contains(i) {
        let t = choose|t: int| #[trigger] bit_set(x).contains(t) && t <= i && (i - t) % 9 == 0;
        assert(has_bit(x, t) && t <= i && i - t < 9 * 16 && (i - t) % 9 == 0);
    }
}

proof fn lemma_reach_down_all(x: u128, i: int)
    requires
        0 <= i < 81,
    ensures
        reach_down(x, i, 16) <==> filled_down(bit_set(x)).contains(i),
{
    if reach_down(x, i, 16) {
        let t = choose|t: int| #[trigger]
            has_bit(x, t) && i <= t && t - i < 9 * 16 && (t - i) % 9 == 0;
        assert(bit_set(x).contains(t));
    }
    if filled_down(bit_set(x)).contains(i) {
        let t = choose|t: int| #[trigger] bit_set(x).contains(t) && i <= t && (t - i) % 9 == 0;
        assert(has_bit(x, t) && i <= t && t - i < 9 * 16 && (t - i) % 9 == 0);
    }
}

impl Bitboard {
    /// The empty set.
    pub fn empty() -> (r: Bitboard)
        ensures
            r.0 == 0,
            r@ == Set::<int>::empty(),
    {
        proof {
            lemma_zero();
        }
        Bitboard(0)
    }

    /// The 81 squares of the board.
    pub fn full() -> (r: Bitboard)
        ensures
            r.0 == BOARDMASK,
            r@ == board_squares(),
    {
        proof {
            lemma_board_mask();
        }
        Bitboard(BOARDMASK)
    }

    /// The set that holds `sq` alone.
    pub fn from_square(sq: Square) -> (r: Bitboard)
        requires
            sq.0 < 128,
        ensures
            r@ == set![sq.index()],
    {
        proof {
            lemma_single(sq.0 as int);
        }
        Bitboard(1u128 << sq.0)
    }

    /// The nine squares of a rank.
    pub fn from_rank(rank: u8) -> (r: Bitboard)
        requires
            rank < 9,
        ensures
            r@ == rank_squares(rank as int),
    {
        let shift: u8 = 9 * rank;
        let r = Bitboard(RANKMASK << shift);
        proof {
            bv_constants(0);
            lemma_low_mask(9);
            lemma_shl(RANKMASK, shift as u128);
            assert forall|i: int| r@.contains(i) == rank_squares(rank as int).contains(i) by {
                assert(r@.contains(i) == has_bit(RANKMASK << (shift as u128), i));
                assert(has_bit(RANKMASK, i - shift) == bit_set(RANKMASK).contains(i - shift));
            }
            assert(r@ =~= rank_squares(rank as int));
        }
        r
    }

    /// The nine squares of a file.
    pub fn from_file(file: u8) -> (r: Bitboard)
        requires
            file < 9,
        ensures
            r@ == file_squares(file as int),
    {
        let r = Bitboard(FILEMASK << file);
        proof {
            lemma_shl(FILEMASK, file as u128);
            assert forall|i: int| r@.contains(i) == file_squares(file as int).contains(i) by {
                assert(r@.contains(i) == has_bit(FILEMASK << (file as u128), i));
                if file <= i < 128 {
                    bv_constants((i - file) as u128);
                }
            }
            assert(r@ =~= file_squares(file as int));
        }
        r
    }

    /// The lowest member of a set that is not empty.
    pub fn lsb(&self) -> (r: u8)
        requires
            self.0 != 0,
        ensures
            is_lowest(self.0, r as int),
            self@.contains(r as int),
            forall|j: int| self@.contains(j) ==> r <= j,
    {
        proof {
            lemma_lowest(self.0);
            vstd::std_specs::bits::axiom_u64_trailing_zeros(low_half(self.0));
            vstd::std_specs::bits::axiom_u64_trailing_zeros(high_half(self.0));
            crate::types::bits::lemma_halves(self.0);
        }
        let lo = self.lo_bits();
        if lo != 0 {
            lo.trailing_zeros() as u8
        } else {
            let hi = self.hi_bits();
            hi.trailing_zeros() as u8 + 64
        }
    }

    /// The number of zeros above the highest member of a set that is not
    /// empty: 127 less the highest member.
    pub fn msb(&self) -> (r: u8)
        requires
            self.0 != 0,
        ensures
            is_highest(self.0, 127 - r),
            self@.contains(127 - r),
            forall|j: int| self@.contains(j) ==> j <= 127 - r,
    {
        proof {
            lemma_highest(self.0);
            vstd::std_specs::bits::axiom_u64_leading_zeros(low_half(self.0));
            vstd::std_specs::bits::axiom_u64_leading_zeros(high_half(self.0));
            crate::types::bits::lemma_halves(self.0);
        }
        let hi = self.hi_bits();
        if hi != 0 {
            hi.leading_zeros() as u8
        } else {
            let lo = self.lo_bits();
            lo.leading_zeros() as u8 + 64
        }
    }

    /// Takes the lowest member out of a set that is not empty, and returns it.
    pub fn pop_lsb(&mut self) -> (r: u8)
        requires
            old(self).0 != 0,
        ensures
            is_lowest(old(self).0, r as int),
            old(self)@.contains(r as int),
            forall|j: int| old(self)@.contains(j) ==> r <= j,
            final(self)@ == old(self)@.remove(r as int),
            final(self).0 < old(self).0,
    {
        let lsb: u8 = self.lsb();
        proof {
            lemma_clear_lowest(self.0, lsb as int);
        }
        self.0 = self.0 & (self.0 - 1);
        lsb
    }

    /// The number of members.
    pub fn popcount(&self) -> (r: u32)
        ensures
            r == self@.len(),
    {
        let mut rest = Bitboard(self.0);
        let mut count: u32 = 0;
        proof {
            lemma_finite(self.0);
        }
        while rest.0 != 0
            invariant
                rest@.finite(),
                rest@.len() <= 128,
                count + rest@.len() == self@.len(),
                self@.len() <= 128,
            decreases rest.0,
        {
            rest.pop_lsb();
            count += 1;
        }
        proof {
            lemma_zero();
        }
        count
    }

    /// Whether the set has no member.
    pub fn is_empty(&self) -> (r: bool)
        ensures
            r == (self.0 == 0),
            r == (self@ == Set::<int>::empty()),
    {
        proof {
            lemma_zero_iff_empty(self.0);
        }
        self.0 == 0
    }

    /// Whether the set has a member.
    pub fn is_not_empty(&self) -> (r: bool)
        ensures
            r == (self.0 != 0),
            r == (self@ != Set::<int>::empty()),
    {
        proof {
            lemma_zero_iff_empty(self.0);
        }
        self.0 != 0
    }

    /// Whether the set has a member.
    pub fn has_bits(&self) -> (r: bool)
        ensures
            r == (self.0 != 0),
            r == (self@ != Set::<int>::empty()),
    {
        proof {
            lemma_zero_iff_empty(self.0);
        }
        self.0 != 0
    }

    /// The word itself.
    pub fn raw(&self) -> (r: u128)
        ensures
            r == self.0,
    {
        self.0
    }

    /// Whether the set has two members or more.
    pub fn contains_multiple(&self) -> (r: bool)
        ensures
            r == (self@.len() >= 2),
    {
        let rest: u128 = self.0 & self.0.wrapping_sub(1);
        proof {
            lemma_finite(self.0);
            lemma_zero();
            if self.0 == 0 {
                bv_words(self.0.wrapping_sub(1));
            } else {
                lemma_lowest(self.0);
                lemma_clear_lowest(self.0, lowest_index(self.0));
                lemma_zero_iff_empty(rest);
                lemma_finite(rest);
                if bit_set(rest).len() == 0 {
                    bit_set(rest).lemma_len0_is_empty();
                }
            }
        }
        rest != 0
    }

    /// Whether the set has exactly one member.
    pub fn contains_one(&self) -> (r: bool)
        ensures
            r == (self@.len() == 1),
    {
        proof {
            lemma_finite(self.0);
            lemma_zero_iff_empty(self.0);
            if self@.len() == 0 {
                self@.lemma_len0_is_empty();
            }
        }
        !self.is_empty() && !self.contains_multiple()
    }

    /// Floods every member up its file: the result holds the squares of the
    /// board at or above a member, on that member's file.
    pub fn fill_upwards(&self) -> (r: Bitboard)
        ensures
            r@ == filled_up(self@),
    {
        let b0: u128 = self.0;
        let b1: u128 = b0 | (b0 << 9u8);
        let b2: u128 = b1 | (b1 << 18u8);
        let b3: u128 = b2 | (b2 << 36u8);
        let b4: u128 = b3 | (b3 << 72u8);
        let r = Bitboard(b4 & BOARDMASK);
        proof {
            lemma_fill_up_chain(b0, b1, b2, b3, b4);
            lemma_and(b4, BOARDMASK);
            lemma_board_mask();
            assert forall|i: int| r@.contains(i) == filled_up(self@).contains(i) by {
                assert(r@.contains(i) == (has_bit(b4, i) && 0 <= i < 81));
                if 0 <= i < 81 {
                    lemma_reach_up_all(b0, i);
                }
            }
            assert(r@ =~= filled_up(self@));
        }
        r
    }

    /// Floods every member down its file: the result holds the squares of
    /// the board at or below a member, on that member's file.
    pub fn fill_downwards(&self) -> (r: Bitboard)
        ensures
            r@ == filled_down(self@),
    {
        let b0: u128 = self.0;
        let b1: u128 = b0 | (b0 >> 9u8);
        let b2: u128 = b1 | (b1 >> 18u8);
        let b3: u128 = b2 | (b2 >> 36u8);
        let b4: u128 = b3 | (b3 >> 72u8);
        let r = Bitboard(b4 & BOARDMASK);
        proof {
            lemma_fill_down_chain(b0, b1, b2, b3, b4);
            lemma_and(b4, BOARDMASK);
            lemma_board_mask();
            assert forall|i: int| r@.contains(i) == filled_down(self@).contains(i) by {
                assert(r@.contains(i) == (has_bit(b4, i) && 0 <= i < 81));
                if 0 <= i < 81 {
                    lemma_reach_down_all(b0, i);
                }
            }
            assert(r@ =~= filled_down(self@));
        }
        r
    }

    /// Floods every member up and down its file.
    pub fn file_fill(&self) -> (r: Bitboard)
        ensures
            r@ == filled_up(self@).union(filled_down(self@)),
    {
        let up = self.fill_upwards();
        let down = self.fill_downwards();
        proof {
            lemma_or(up.0, down.0);
        }
        Bitboard(up.0 | down.0)
    }

    /// The members that both sets have.
    pub fn const_and(&self, rhs: Bitboard) -> (r: Bitboard)
        ensures
            r.0 == self.0 & rhs.0,
            r@ == self@.intersect(rhs@),
    {
        proof {
            lemma_and(self.0, rhs.0);
        }
        Bitboard(self.0 & rhs.0)
    }

    /// The two's complement of the word: zero for zero, else `2^128` less the word.
    pub fn const_neg(&self) -> (r: Bitboard)
        ensures
            self.0 == 0 ==> r.0 == 0,
            self.0 != 0 ==> r.0 == 0x1_0000_0000_0000_0000_0000_0000_0000_0000 - self.0,
    {
        Bitboard(0u128.wrapping_sub(self.0))
    }

    /// The members of either set.
    pub fn const_or(&self, rhs: Bitboard) -> (r: Bitboard)
        ensures
            r.0 == self.0 | rhs.0,
            r@ == self@.union(rhs@),
    {
        proof {
            lemma_or(self.0, rhs.0);
        }
        Bitboard(self.0 | rhs.0)
    }

    /// The difference of the two words as numbers.
    pub fn const_sub(&self, rhs: Bitboard) -> (r: Bitboard)
        requires
            rhs.0 <= self.0,
        ensures
            r.0 == self.0 - rhs.0,
    {
        Bitboard(self.0 - rhs.0)
    }

    /// Every member moved up by `shift` positions; a member that would pass
    /// position 127 is dropped.
    pub fn const_shl(&self, shift: u8) -> (r: Bitboard)
        requires
            shift < 128,
        ensures
            r.0 == self.0 << shift,
            forall|i: int| r@.contains(i) <==> shift <= i < 128 && self@.contains(i - shift),
    {
        proof {
            lemma_shl(self.0, shift as u128);
            assert forall|i: int|
                Bitboard(self.0 << shift)@.contains(i) <==> shift <= i < 128 && self@.contains(
                    i - shift,
                ) by {
                assert(Bitboard(self.0 << shift)@.contains(i) == has_bit(
                    self.0 << (shift as u128),
                    i,
                ));
            }
        }
        Bitboard(self.0 << shift)
    }

    /// Every member moved down by `shift` positions; a member below
    /// position `shift` is dropped.
    pub fn const_shr(&self, shift: u8) -> (r: Bitboard)
        requires
            shift < 128,
        ensures
            r.0 == self.0 >> shift,
            forall|i: int| r@.contains(i) <==> 0 <= i && self@.contains(i + shift),
    {
        proof {
            lemma_shr(self.0, shift as u128);
            assert forall|i: int|
                Bitboard(self.0 >> shift)@.contains(i) <==> 0 <= i && self@.contains(i + shift) by {
                assert(Bitboard(self.0 >> shift)@.contains(i) == has_bit(
                    self.0 >> (shift as u128),
                    i,
                ));
            }
        }
        Bitboard(self.0 >> shift)
    }

    /// The members of this set that `rhs` does not have.
    pub fn without(&self, rhs: Bitboard) -> (r: Bitboard)
        ensures
            r.0 == self.0 & !rhs.0,
            r@ == self@.difference(rhs@),
    {
        proof {
            lemma_not(rhs.0);
            lemma_and(self.0, !rhs.0);
            lemma_finite(self.0);
            assert(bit_set(self.0).subset_of(set_int_range(0, 128))) by {
                assert forall|i: int| bit_set(self.0).contains(i) implies set_int_range(
                    0,
                    128,
                ).contains(i) by {}
            }
            assert(Bitboard(self.0 & !rhs.0)@ =~= self@.difference(rhs@));
        }
        Bitboard(self.0 & !rhs.0)
    }

    /// The members of exactly one of the two sets.
    pub fn const_xor(&self, rhs: Bitboard) -> (r: Bitboard)
        ensures
            r.0 == self.0 ^ rhs.0,
            r@ == self@.difference(rhs@).union(rhs@.difference(self@)),
    {
        proof {
            lemma_xor(self.0, rhs.0);
        }
        Bitboard(self.0 ^ rhs.0)
    }

    /// The upper 64 bits of the word.
    pub fn hi_bits(&self) -> (r: u64)
        ensures
            r == high_half(self.0),
            r == self.0 / 0x1_0000_0000_0000_0000,
    {
        proof {
            bv_words(self.0);
        }
        (self.0 >> 64u8) as u64
    }

    /// The lower 64 bits of the word.
    pub fn lo_bits(&self) -> (r: u64)
        ensures
            r == low_half(self.0),
            r == self.0 % 0x1_0000_0000_0000_0000,
    {
        proof {
            bv_words(self.0);
        }
        (self.0 & 0xffff_ffff_ffff_ffff) as u64
    }
}


impl Default for Bitboard {
    /// The empty set.
    fn default() -> (r: Bitboard)
        ensures
            r.0 == 0,
    {
        Bitboard(0)
    }
}

impl core::ops::BitAnd for Bitboard {
    type Output = Bitboard;

    /// The members that both sets have.
    fn bitand(self, rhs: Bitboard) -> (r: Bitboard) {
        Bitboard(self.0 & rhs.0)
    }
}

impl BitAndSpecImpl for Bitboard {
    open spec fn obeys_bitand_spec() -> bool {
        true
    }

    open spec fn bitand_req(self, rhs: Bitboard) -> bool {
        true
    }

    open spec fn bitand_spec(self, rhs: Bitboard) -> Bitboard {
        Bitboard(self.0 & rhs.0)
    }
}

impl core::ops::BitOr for Bitboard {
    type Output = Bitboard;

    /// The members of either set.
    fn bitor(self, rhs: Bitboard) -> (r: Bitboard) {
        Bitboard(self.0 | rhs.0)
    }
}

impl BitOrSpecImpl for Bitboard {
    open spec fn obeys_bitor_spec() -> bool {
        true
    }

    open spec fn bitor_req(self, rhs: Bitboard) -> bool {
        true
    }

    open spec fn bitor_spec(self, rhs: Bitboard) -> Bitboard {
        Bitboard(self.0 | rhs.0)
    }
}

impl core::ops::BitXor for Bitboard {
    type Output = Bitboard;

    /// The members of exactly one of the two sets.
    fn bitxor(self, rhs: Bitboard) -> (r: Bitboard) {
        Bitboard(self.0 ^ rhs.0)
    }
}

impl BitXorSpecImpl for Bitboard {
    open spec fn obeys_bitxor_spec() -> bool {
        true
    }

    open spec fn bitxor_req(self, rhs: Bitboard) -> bool {
        true
    }

    open spec fn bitxor_spec(self, rhs: Bitboard) -> Bitboard {
        Bitboard(self.0 ^ rhs.0)
    }
}

impl core::ops::Not for Bitboard {
    type Output = Bitboard;

    /// The positions below 128 that the set does not hold.
    fn not(self) -> (r: Bitboard) {
        Bitboard(!self.0)
    }
}

impl NotSpecImpl for Bitboard {
    open spec fn obeys_not_spec() -> bool {
        true
    }

    open spec fn not_req(self) -> bool {
        true
    }

    open spec fn not_spec(self) -> Bitboard {
        Bitboard(!self.0)
    }
}

impl core::ops::Shl<u8> for Bitboard {
    type Output = Bitboard;

    /// Every member moved up by `rhs` positions.
    fn shl(self, rhs: u8) -> (r: Bitboard) {
        Bitboard(self.0 << rhs)
    }
}

impl ShlSpecImpl<u8> for Bitboard {
    open spec fn obeys_shl_spec() -> bool {
        true
    }

    open spec fn shl_req(self, rhs: u8) -> bool {
        rhs < 128
    }

    open spec fn shl_spec(self, rhs: u8) -> Bitboard {
        Bitboard(self.0 << rhs)
    }
}

impl core::ops::Shr<u8> for Bitboard {
    type Output = Bitboard;

    /// Every member moved down by `rhs` positions.
    fn shr(self, rhs: u8) -> (r: Bitboard) {
        Bitboard(self.0 >> rhs)
    }
}

impl ShrSpecImpl<u8> for Bitboard {
    open spec fn obeys_shr_spec() -> bool {
        true
    }

    open spec fn shr_req(self, rhs: u8) -> bool {
        rhs < 128
    }

    open spec fn shr_spec(self, rhs: u8) -> Bitboard {
        Bitboard(self.0 >> rhs)
    }
}

impl core::ops::BitAndAssign for Bitboard {
    /// Keeps the members that `rhs` has too.
    fn bitand_assign(&mut self, rhs: Bitboard)
        ensures
            final(self).0 == old(self).0 & rhs.0,
    {
        self.0 = self.0 & rhs.0;
    }
}

impl core::ops::BitOrAssign for Bitboard {
    /// Adds the members of `rhs`.
    fn bitor_assign(&mut self, rhs: Bitboard)
        ensures
            final(self).0 == old(self).0 | rhs.0,
    {
        self.0 = self.0 | rhs.0;
    }
}

impl core::ops::BitXorAssign for Bitboard {
    /// Toggles the members of `rhs`.
    fn bitxor_assign(&mut self, rhs: Bitboard)
        ensures
            final(self).0 == old(self).0 ^ rhs.0,
    {
        self.0 = self.0 ^ rhs.0;
    }
}

/// What is left of a set while its members are handed out, lowest first.
pub struct Biterator {
    board: Bitboard,
}

impl View for Biterator {
    type V = Set<int>;

    /// The members not yet handed out.
    closed spec fn view(&self) -> Set<int> {
        self.board@
    }
}

impl Biterator {
    /// Hands out the lowest member that is left, or `None` once none is left.
    pub fn next(&mut self) -> (r: Option<Square>)
        ensures
            old(self)@ == Set::<int>::empty() ==> r is None && final(self)@ == old(self)@,
            old(self)@ != Set::<int>::empty() ==> r is Some && old(self)@.contains(r->0.index())
                && (forall|j: int| old(self)@.contains(j) ==> r->0.index() <= j) && final(self)@
                == old(self)@.remove(r->0.index()),
            final(self)@.len() <= old(self)@.len(),
            r is Some ==> final(self)@.len() < old(self)@.len(),
    {
        proof {
            lemma_finite(self.board.0);
        }
        if self.board.is_empty() {
            None
        } else {
            Some(Square(self.board.pop_lsb()))
        }
    }
}

impl Bitboard {
    /// Starts handing out the members of the set. The set itself is copied and stays as it is.
    pub fn into_iter(self) -> (r: Biterator)
        ensures
            r@ == self@,
    {
        Biterator { board: self }
    }

    /// Whether the set holds `sq`.
    pub fn contains(&self, sq: Square) -> (r: bool)
        requires
            sq.0 < 128,
        ensures
            r == self@.contains(sq.index()),
    {
        (self.0 >> sq.0) & 1 == 1
    }

    /// The members of the set, each once, in ascending order.
    pub fn squares(&self) -> (r: Vec<Square>)
        ensures
            r@.len() == self@.len(),
            forall|i: int, j: int| 0 <= i < j < r@.len() ==> r@[i].0 < r@[j].0,
            forall|i: int| 0 <= i < r@.len() ==> self@.contains(#[trigger] r@[i].index()),
            forall|s: int|
                self@.contains(s) ==> exists|i: int| 0 <= i < r@.len() && #[trigger] r@[i].index() == s,
    {
        let mut rest = self.into_iter();
        let mut out: Vec<Square> = Vec::new();
        proof {
            lemma_finite(self.0);
        }
        loop
            invariant
                rest@.finite(),
                rest@.subset_of(self@),
                self@.finite(),
                out@.len() + rest@.len() == self@.len(),
                forall|i: int, j: int| 0 <= i < j < out@.len() ==> out@[i].0 < out@[j].0,
                forall|i: int|
                    0 <= i < out@.len() ==> self@.contains(#[trigger] out@[i].index())
                        && !rest@.contains(out@[i].index()),
                forall|i: int, s: int|
                    0 <= i < out@.len() && #[trigger] rest@.contains(s) ==> #[trigger] out@[i].index()
                        < s,
                forall|s: int|
                    self@.contains(s) && !rest@.contains(s) ==> exists|i: int|
                        0 <= i < out@.len() && #[trigger] out@[i].index() == s,
            ensures
                rest@ == Set::<int>::empty(),
            decreases rest@.len(),
        {
            let ghost before = rest@;
            let ghost done = out@;
            match rest.next() {
                None => {
                    break ;
                },
                Some(sq) => {
                    out.push(sq);
                    proof {
                        assert forall|i: int, j: int| 0 <= i < j < out@.len() implies out@[i].0
                            < out@[j].0 by {
                            if j == done.len() {
                                assert(before.contains(sq.index()));
                                assert(done[i].index() < sq.index());
                            } else {
                                assert(done[i].0 < done[j].0);
                            }
                        }
                        assert forall|s: int|
                            self@.contains(s) && !rest@.contains(s) implies exists|i: int|
                            0 <= i < out@.len() && #[trigger] out@[i].index() == s by {
                            if s == sq.index() {
                                assert(out@[done.len() as int].index() == s);
                            } else {
                                assert(!before.contains(s));
                                let i = choose|i: int|
                                    0 <= i < done.len() && #[trigger] done[i].index() == s;
                                assert(out@[i].index() == s);
                            }
                        }
                    }
                },
            }
        }
        out
    }
}

/// The first `n` marks of the rank `rank`, in ascending order of file:
/// `1` for a member, `0` for any other square.
pub open spec fn rank_marks(members: Set<int>, rank: int, n: int) -> Seq<char>
    decreases n,
{
    if n <= 0 {
        Seq::empty()
    } else {
        rank_marks(members, rank, n - 1).push(
            if members.contains(9 * rank + n - 1) {
                '1'
            } else {
                '0'
            },
        )
    }
}

/// The lines of the `n` highest ranks, the highest first, each nine marks
/// and a line feed.
pub open spec fn board_marks(members: Set<int>, n: int) -> Seq<char>
    decreases n,
{
    if n <= 0 {
        Seq::empty()
    } else {
        board_marks(members, n - 1) + rank_marks(members, 9 - n, 9).push('\n')
    }
}

impl Bitboard {
    /// The 81 squares of the board as nine lines of nine marks, the rank
    /// farthest from square 0 first.
    pub fn to_chars(&self) -> (r: Vec<char>)
        ensures
            r@ == board_marks(self@, 9),
    {
        let mut out: Vec<char> = Vec::new();
        let mut done: u8 = 0;
        while done < 9
            invariant
                done <= 9,
                out@ == board_marks(self@, done as int),
            decreases 9 - done,
        {
            let rank: u8 = 8 - done;
            let ghost start = out@;
            let mut file: u8 = 0;
            while file < 9
                invariant
                    file <= 9,
                    rank < 9,
                    out@ == start + rank_marks(self@, rank as int, file as int),
                decreases 9 - file,
            {
                if self.contains(Square(rank * 9 + file)) {
                    out.push('1');
                } else {
                    out.push('0');
                }
                file += 1;
                proof {
                    assert(out@ =~= start + rank_marks(self@, rank as int, file as int));
                }
            }
            out.push('\n');
            done += 1;
            proof {
                assert(out@ =~= start + rank_marks(self@, rank as int, 9).push('\n'));
            }
        }
        out
    }

    /// The text of `to_chars` as a string.
    pub fn to_string(&self) -> (r: String)
        ensures
            r@ == board_marks(self@, 9),
    {
        let chars = self.to_chars();
        string_from_chars(&chars)
    }
}

} // verus!
