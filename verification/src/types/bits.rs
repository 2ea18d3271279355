//! Bit-level facts about 128-bit words, phrased over the set of positions
//! at which a word has a one.
//!
//! Everything the rest of the crate knows about `&`, `|`, `^`, `!`, `<<` and
//! `>>` comes from the lemmas in this module.

use vstd::prelude::*;
use vstd::set_lib::lemma_int_range;
use vstd::set_lib::lemma_len_subset;
use vstd::set_lib::set_int_range;
use vstd::std_specs::bits::axiom_u64_leading_zeros;
use vstd::std_specs::bits::axiom_u64_trailing_zeros;
use vstd::std_specs::bits::u64_leading_zeros;
use vstd::std_specs::bits::u64_trailing_zeros;

verus! {

/// Whether bit `i` of `x` is one. False for every `i` outside `0..128`.
pub open spec fn has_bit(x: u128, i: int) -> bool {
    0 <= i < 128 && (x >> (i as u128)) & 1 == 1
}

/// The positions at which `x` has a one.
pub open spec fn bit_set(x: u128) -> Set<int> {
    Set::new(|i: int| has_bit(x, i))
}

/// `t` is the position of the lowest one of `x`.
pub open spec fn is_lowest(x: u128, t: int) -> bool {
    has_bit(x, t) && forall|j: int| has_bit(x, j) ==> t <= j
}

/// `t` is the position of the highest one of `x`.
pub open spec fn is_highest(x: u128, t: int) -> bool {
    has_bit(x, t) && forall|j: int| has_bit(x, j) ==> j <= t
}

proof fn bv_ops(a: u128, b: u128, i: u128)
    by (bit_vector)
    requires
        i < 128,
    ensures
        ((a & b) >> i) & 1 == 1 <==> ((a >> i) & 1 == 1 && (b >> i) & 1 == 1),
        ((a | b) >> i) & 1 == 1 <==> ((a >> i) & 1 == 1 || (b >> i) & 1 == 1),
        ((a ^ b) >> i) & 1 == 1 <==> ((a >> i) & 1 == 1) != ((b >> i) & 1 == 1),
        ((!a) >> i) & 1 == 1 <==> (a >> i) & 1 != 1,
        (0u128 >> i) & 1 != 1,
{
}

proof fn bv_shifts(a: u128, n: u128, i: u128)
    by (bit_vector)
    requires
        i < 128,
        n < 128,
    ensures
        ((a << n) >> i) & 1 == 1 <==> (i >= n && (a >> ((i - n) as u128)) & 1 == 1),
        ((a >> n) >> i) & 1 == 1 <==> (i + n < 128 && (a >> ((i + n) as u128)) & 1 == 1),
        ((1u128 << n) >> i) & 1 == 1 <==> i == n,
{
}

proof fn bv_halves(x: u128, i: u64)
    by (bit_vector)
    requires
        i < 64,
    ensures
        (((x & 0xffff_ffff_ffff_ffff) as u64) >> i) & 1 == 1 <==> (x >> (i as u128)) & 1 == 1,
        (((x >> 64) as u64) >> i) & 1 == 1 <==> (x >> ((i + 64) as u128)) & 1 == 1,
        x != 0 ==> ((x & 0xffff_ffff_ffff_ffff) as u64) != 0 || ((x >> 64) as u64) != 0,
        x & 0xffff_ffff_ffff_ffff <= 0xffff_ffff_ffff_ffff,
        x >> 64 <= 0xffff_ffff_ffff_ffff,
{
}

proof fn bv_clear_lowest(x: u128, i: u128, j: u128)
    by (bit_vector)
    requires
        x != 0,
        i < 128,
        j < 128,
    ensures
        x & ((x - 1) as u128) < x,
        ((x & ((x - 1) as u128)) >> i) & 1 == 1 ==> (x >> i) & 1 == 1,
        (x >> i) & 1 == 1 && (x >> j) & 1 == 1 && j < i ==> ((x & ((x - 1) as u128)) >> i) & 1 == 1,
        (x >> i) & 1 == 1 && ((x & ((x - 1) as u128)) >> i) & 1 == 1 ==> x & (((1u128 << i)
            - 1) as u128) != 0,
        ((x & (((1u128 << i) - 1) as u128)) >> j) & 1 == 1 ==> j < i && (x >> j) & 1 == 1,
{
}

proof fn bv_low_mask(n: u128, i: u128)
    by (bit_vector)
    requires
        n <= 127,
        i < 128,
    ensures
        ((((1u128 << n) - 1) as u128) >> i) & 1 == 1 <==> i < n,
{
}

/// The ones of `a & b` are the ones that `a` and `b` share.
pub proof fn lemma_and(a: u128, b: u128)
    ensures
        bit_set(a & b) == bit_set(a).intersect(bit_set(b)),
{
    assert forall|i: int| bit_set(a & b).contains(i) == bit_set(a).intersect(bit_set(b)).contains(
        i,
    ) by {
        if 0 <= i < 128 {
            bv_ops(a, b, i as u128);
        }
    }
    assert(bit_set(a & b) =~= bit_set(a).intersect(bit_set(b)));
}

/// The ones of `a | b` are the ones of `a` together with those of `b`.
pub proof fn lemma_or(a: u128, b: u128)
    ensures
        bit_set(a | b) == bit_set(a).union(bit_set(b)),
{
    assert forall|i: int| bit_set(a | b).contains(i) == bit_set(a).union(bit_set(b)).contains(
        i,
    ) by {
        if 0 <= i < 128 {
            bv_ops(a, b, i as u128);
        }
    }
    assert(bit_set(a | b) =~= bit_set(a).union(bit_set(b)));
}

/// The ones of `a ^ b` are the positions at which exactly one of the two has a one.
pub proof fn lemma_xor(a: u128, b: u128)
    ensures
        bit_set(a ^ b) == bit_set(a).difference(bit_set(b)).union(
            bit_set(b).difference(bit_set(a)),
        ),
{
    let rhs = bit_set(a).difference(bit_set(b)).union(bit_set(b).difference(bit_set(a)));
    assert forall|i: int| bit_set(a ^ b).contains(i) == rhs.contains(i) by {
        if 0 <= i < 128 {
            bv_ops(a, b, i as u128);
        }
    }
    assert(bit_set(a ^ b) =~= rhs);
}

/// The ones of `!a` are the positions below 128 at which `a` has a zero.
pub proof fn lemma_not(a: u128)
    ensures
        bit_set(!a) == set_int_range(0, 128).difference(bit_set(a)),
{
    assert forall|i: int| bit_set(!a).contains(i) == set_int_range(0, 128).difference(
        bit_set(a),
    ).contains(i) by {
        if 0 <= i < 128 {
            bv_ops(a, a, i as u128);
        }
    }
    assert(bit_set(!a) =~= set_int_range(0, 128).difference(bit_set(a)));
}

/// Zero has no ones.
pub proof fn lemma_zero()
    ensures
        bit_set(0) == Set::<int>::empty(),
{
    assert forall|i: int| !bit_set(0).contains(i) by {
        if 0 <= i < 128 {
            bv_ops(0, 0, i as u128);
        }
    }
    assert(bit_set(0) =~= Set::<int>::empty());
}

/// `1 << n` has its single one at position `n`.
pub proof fn lemma_single(n: int)
    requires
        0 <= n < 128,
    ensures
        bit_set(1u128 << (n as u128)) == set![n],
{
    let x = 1u128 << (n as u128);
    assert forall|i: int| bit_set(x).contains(i) == set![n].contains(i) by {
        if 0 <= i < 128 {
            bv_shifts(0, n as u128, i as u128);
        }
    }
    assert(bit_set(x) =~= set![n]);
}

/// A left shift by `n` moves every one up by `n`; ones that would pass bit 127 are lost.
pub proof fn lemma_shl(a: u128, n: u128)
    requires
        n < 128,
    ensures
        forall|i: int| #[trigger] has_bit(a << n, i) <==> n <= i < 128 && has_bit(a, i - n),
{
    assert forall|i: int| #[trigger] has_bit(a << n, i) <==> n <= i < 128 && has_bit(a, i - n) by {
        if 0 <= i < 128 {
            bv_shifts(a, n, i as u128);
        }
    }
}

/// A right shift by `n` moves every one down by `n`; ones below position `n` are lost.
pub proof fn lemma_shr(a: u128, n: u128)
    requires
        n < 128,
    ensures
        forall|i: int| #[trigger] has_bit(a >> n, i) <==> 0 <= i && has_bit(a, i + n),
{
    assert forall|i: int| #[trigger] has_bit(a >> n, i) <==> 0 <= i && has_bit(a, i + n) by {
        if 0 <= i < 128 {
            bv_shifts(a, n, i as u128);
        }
    }
}

/// `(1 << n) - 1` has its ones exactly below position `n`.
pub proof fn lemma_low_mask(n: int)
    requires
        0 <= n < 128,
    ensures
        bit_set(((1u128 << (n as u128)) - 1) as u128) == set_int_range(0, n),
{
    let m = ((1u128 << (n as u128)) - 1) as u128;
    assert forall|i: int| bit_set(m).contains(i) == set_int_range(0, n).contains(i) by {
        if 0 <= i < 128 {
            bv_low_mask(n as u128, i as u128);
        }
    }
    assert(bit_set(m) =~= set_int_range(0, n));
}

/// The low and high halves of `x` as 64-bit words.
pub open spec fn low_half(x: u128) -> u64 {
    (x & 0xffff_ffff_ffff_ffff) as u64
}

pub open spec fn high_half(x: u128) -> u64 {
    (x >> 64) as u64
}

/// Bit `i` of the low half is bit `i` of `x`; bit `i` of the high half is bit `i + 64`.
pub proof fn lemma_halves(x: u128)
    ensures
        forall|i: u64|
            i < 64 ==> (#[trigger] ((low_half(x) >> i) & 1) == 1 <==> has_bit(x, i as int)),
        forall|i: u64|
            i < 64 ==> (#[trigger] ((high_half(x) >> i) & 1) == 1 <==> has_bit(x, i + 64)),
        x != 0 ==> low_half(x) != 0 || high_half(x) != 0,
{
    assert forall|i: u64| i < 64 implies (#[trigger] ((low_half(x) >> i) & 1) == 1 <==> has_bit(
        x,
        i as int,
    )) by {
        bv_halves(x, i);
    }
    assert forall|i: u64| i < 64 implies (#[trigger] ((high_half(x) >> i) & 1) == 1 <==> has_bit(
        x,
        i + 64,
    )) by {
        bv_halves(x, i);
    }
    bv_halves(x, 0);
}

/// The position of the lowest one of a word that is not zero, from the
/// trailing zeros of its halves.
pub open spec fn lowest_index(x: u128) -> int {
    if low_half(x) != 0 {
        u64_trailing_zeros(low_half(x)) as int
    } else {
        64 + u64_trailing_zeros(high_half(x))
    }
}

/// The position of the highest one of a word that is not zero, from the
/// leading zeros of its halves.
pub open spec fn highest_index(x: u128) -> int {
    if high_half(x) != 0 {
        127 - u64_leading_zeros(high_half(x))
    } else {
        63 - u64_leading_zeros(low_half(x))
    }
}

/// A word that is not zero has a lowest one, at `lowest_index`.
pub proof fn lemma_lowest(x: u128)
    requires
        x != 0,
    ensures
        is_lowest(x, lowest_index(x)),
{
    lemma_halves(x);
    let lo = low_half(x);
    let hi = high_half(x);
    axiom_u64_trailing_zeros(lo);
    axiom_u64_trailing_zeros(hi);
    let t = lowest_index(x);
    if lo != 0 {
        let tz = u64_trailing_zeros(lo) as u64;
        assert((lo >> tz) & 1 == 1);
        assert(has_bit(x, t));
        assert forall|j: int| has_bit(x, j) implies t <= j by {
            if j < t {
                let ju = j as u64;
                assert((lo >> ju) & 1 == 0);
            }
        }
    } else {
        let tz = u64_trailing_zeros(hi) as u64;
        assert((hi >> tz) & 1 == 1);
        assert(has_bit(x, tz + 64));
        assert forall|j: int| has_bit(x, j) implies t <= j by {
            if j < 64 {
                let ju = j as u64;
                assert((lo >> ju) & 1 == 0) by {
                    assert(lo == 0);
                    assert((0u64 >> ju) & 1 == 0) by (bit_vector);
                }
            } else if j < t {
                let ju = (j - 64) as u64;
                assert((hi >> ju) & 1 == 0);
            }
        }
    }
}

/// A word that is not zero has a highest one, at `highest_index`.
pub proof fn lemma_highest(x: u128)
    requires
        x != 0,
    ensures
        is_highest(x, highest_index(x)),
{
    lemma_halves(x);
    let lo = low_half(x);
    let hi = high_half(x);
    axiom_u64_leading_zeros(lo);
    axiom_u64_leading_zeros(hi);
    let t = highest_index(x);
    if hi != 0 {
        let k = (63 - u64_leading_zeros(hi)) as u64;
        assert((hi >> k) & 1 != 0);
        assert((hi >> k) & 1 == 1) by {
            let w = hi >> k;
            assert(w & 1 == 0 || w & 1 == 1) by (bit_vector);
        }
        assert(has_bit(x, k + 64));
        assert forall|j: int| has_bit(x, j) implies j <= t by {
            if j > t {
                let ju = (j - 64) as u64;
                assert((hi >> ju) & 1 == 0);
            }
        }
    } else {
        let k = (63 - u64_leading_zeros(lo)) as u64;
        assert((lo >> k) & 1 != 0);
        assert((lo >> k) & 1 == 1) by {
            let w = lo >> k;
            assert(w & 1 == 0 || w & 1 == 1) by (bit_vector);
        }
        assert(has_bit(x, k as int));
        assert forall|j: int| has_bit(x, j) implies j <= t by {
            if j >= 64 {
                let ju = (j - 64) as u64;
                assert((hi >> ju) & 1 == 0) by {
                    assert(hi == 0);
                    assert((0u64 >> ju) & 1 == 0) by (bit_vector);
                }
            } else if j > t {
                let ju = j as u64;
                assert((lo >> ju) & 1 == 0);
            }
        }
    }
}

/// Two words with the same ones are the same word.
pub proof fn lemma_ext(a: u128, b: u128)
    requires
        bit_set(a) == bit_set(b),
    ensures
        a == b,
{
    let d = a ^ b;
    if d != 0 {
        lemma_lowest(d);
        let t = lowest_index(d);
        lemma_xor(a, b);
        assert(bit_set(d).contains(t));
        assert(bit_set(a).contains(t) != bit_set(b).contains(t));
    } else {
        assert(a ^ b == 0 ==> a == b) by (bit_vector);
    }
}

/// A word is zero exactly when it has no ones.
pub proof fn lemma_zero_iff_empty(x: u128)
    ensures
        x == 0 <==> bit_set(x) == Set::<int>::empty(),
{
    lemma_zero();
    if x != 0 {
        lemma_lowest(x);
        assert(bit_set(x).contains(lowest_index(x)));
    }
}

/// The ones of a word are finitely many, at most 128.
pub proof fn lemma_finite(x: u128)
    ensures
        bit_set(x).finite(),
        bit_set(x).len() <= 128,
{
    lemma_int_range(0, 128);
    assert(bit_set(x).subset_of(set_int_range(0, 128)));
    lemma_len_subset(bit_set(x), set_int_range(0, 128));
}

/// `x & (x - 1)` is `x` without its lowest one, and is the smaller number.
pub proof fn lemma_clear_lowest(x: u128, t: int)
    requires
        x != 0,
        is_lowest(x, t),
    ensures
        bit_set(x & ((x - 1) as u128)) == bit_set(x).remove(t),
        x & ((x - 1) as u128) < x,
{
    let y = x & ((x - 1) as u128);
    bv_clear_lowest(x, 0, 0);
    assert forall|i: int| bit_set(y).contains(i) == bit_set(x).remove(t).contains(i) by {
        if 0 <= i < 128 {
            bv_clear_lowest(x, i as u128, t as u128);
            if i == t && has_bit(y, i) {
                let z = x & (((1u128 << (i as u128)) - 1) as u128);
                assert(z != 0);
                lemma_lowest(z);
                let j = lowest_index(z);
                bv_clear_lowest(x, i as u128, j as u128);
                assert(has_bit(x, j) && j < t);
            }
        }
    }
    assert(bit_set(y) =~= bit_set(x).remove(t));
}

} // verus!
