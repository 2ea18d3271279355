use shogi_core::types::bitboard::Bitboard;
use shogi_core::types::bitboard::BOARDMASK;
use shogi_core::types::bitboard::FILEMASK;
use shogi_core::types::bitboard::RANKMASK;
use shogi_core::types::square::Square;

#[test]
fn from_square_sets_one_bit() {
    assert_eq!(Bitboard::from_square(Square(0)).raw(), 1);
    assert_eq!(Bitboard::from_square(Square(80)).raw(), 1u128 << 80);
    assert!(Bitboard::from_square(Square(40)).contains_one());
}

#[test]
fn rank_and_file_masks() {
    assert_eq!(Bitboard::from_rank(0).raw(), RANKMASK);
    assert_eq!(Bitboard::from_rank(8).raw(), 0x1ffu128 << 72);
    assert_eq!(Bitboard::from_file(0).raw(), FILEMASK);
    assert_eq!(Bitboard::from_file(8).raw(), FILEMASK << 8);
    assert_eq!(Bitboard::from_rank(3).popcount(), 9);
    assert_eq!(Bitboard::from_file(5).popcount(), 9);
    assert_eq!(Bitboard::from_rank(4).const_and(Bitboard::from_file(4)).raw(), 1u128 << 40);
}

#[test]
fn full_and_empty() {
    assert_eq!(Bitboard::full().raw(), (1u128 << 81) - 1);
    assert_eq!(Bitboard::full().raw(), BOARDMASK);
    assert_eq!(Bitboard::full().popcount(), 81);
    assert_eq!(Bitboard::empty().popcount(), 0);
    assert!(Bitboard::empty().is_empty());
    assert!(!Bitboard::empty().is_not_empty());
    assert!(!Bitboard::empty().has_bits());
    assert!(Bitboard::full().has_bits());
    assert_eq!(Bitboard::default(), Bitboard::empty());
}

#[test]
fn lsb_and_msb() {
    assert_eq!(Bitboard(1).lsb(), 0);
    assert_eq!(Bitboard(1).msb(), 127);
    assert_eq!(Bitboard(1u128 << 80).lsb(), 80);
    assert_eq!(Bitboard(1u128 << 80).msb(), 47);
    assert_eq!(Bitboard((1u128 << 70) | (1u128 << 3)).lsb(), 3);
    assert_eq!(Bitboard((1u128 << 70) | (1u128 << 3)).msb(), 57);
    assert_eq!(Bitboard(1u128 << 127).lsb(), 127);
    assert_eq!(Bitboard(1u128 << 127).msb(), 0);
    assert_eq!(Bitboard(1u128 << 64).lsb(), 64);
    assert_eq!(Bitboard(1u128 << 63).msb(), 64);
}

#[test]
fn pop_lsb_takes_lowest() {
    let mut b = Bitboard(0b1010_0100);
    assert_eq!(b.pop_lsb(), 2);
    assert_eq!(b.raw(), 0b1010_0000);
    assert_eq!(b.pop_lsb(), 5);
    assert_eq!(b.pop_lsb(), 7);
    assert!(b.is_empty());
}

#[test]
fn popcount_counts_members() {
    assert_eq!(Bitboard(0).popcount(), 0);
    assert_eq!(Bitboard(0b1011).popcount(), 3);
    assert_eq!(Bitboard(u128::MAX).popcount(), 128);
    assert_eq!(Bitboard((1u128 << 100) | 1).popcount(), 2);
}

#[test]
fn one_or_many() {
    assert!(!Bitboard(0).contains_multiple());
    assert!(!Bitboard(0).contains_one());
    assert!(!Bitboard(1 << 9).contains_multiple());
    assert!(Bitboard(1 << 9).contains_one());
    assert!(Bitboard(0b11).contains_multiple());
    assert!(!Bitboard(0b11).contains_one());
}

#[test]
fn set_algebra() {
    let a = Bitboard(0b1100);
    let b = Bitboard(0b1010);
    assert_eq!(a.const_and(b).raw(), 0b1000);
    assert_eq!(a.const_or(b).raw(), 0b1110);
    assert_eq!(a.const_xor(b).raw(), 0b0110);
    assert_eq!(a.without(b).raw(), 0b0100);
    assert_eq!((a & b).raw(), 0b1000);
    assert_eq!((a | b).raw(), 0b1110);
    assert_eq!((a ^ b).raw(), 0b0110);
    assert_eq!((!a).raw(), !0b1100u128);
    assert_eq!((a << 2).raw(), 0b110000);
    assert_eq!((a >> 2).raw(), 0b11);
    assert_eq!(a.const_shl(9).raw(), 0b1100 << 9);
    assert_eq!(a.const_shr(3).raw(), 0b1);
    assert_eq!(a.const_sub(b).raw(), 2);
    assert_eq!(Bitboard(1).const_neg().raw(), u128::MAX);
    assert_eq!(Bitboard(0).const_neg().raw(), 0);
    let mut c = a;
    c &= b;
    assert_eq!(c.raw(), 0b1000);
    c |= a;
    assert_eq!(c.raw(), 0b1100);
    c ^= b;
    assert_eq!(c.raw(), 0b0110);
}

#[test]
fn halves() {
    let x = Bitboard((7u128 << 64) | 5);
    assert_eq!(x.hi_bits(), 7);
    assert_eq!(x.lo_bits(), 5);
    assert_eq!(Bitboard(u128::MAX).lo_bits(), u64::MAX);
    assert_eq!(Bitboard(u128::MAX).hi_bits(), u64::MAX);
}

#[test]
fn fills_flood_the_file() {
    let one = Bitboard::from_square(Square(31));
    assert_eq!(one.file_fill().raw(), FILEMASK << 4);
    assert_eq!(one.fill_upwards().raw(), (FILEMASK << 4) & !((1u128 << 31) - 1));
    assert_eq!(one.fill_downwards().raw(), (FILEMASK << 4) & ((1u128 << 32) - 1));
    let two = Bitboard((1 << 0) | (1 << 80));
    assert_eq!(two.file_fill().raw(), FILEMASK | (FILEMASK << 8));
    assert_eq!(Bitboard::empty().file_fill().raw(), 0);
    assert_eq!(Bitboard::full().fill_upwards().raw(), BOARDMASK);
    assert_eq!(Bitboard(1u128 << 100).fill_downwards().raw(), (FILEMASK << 1));
    assert_eq!(Bitboard(1u128 << 100).fill_upwards().raw(), 0);
}

#[test]
fn iteration_is_ascending_and_exact() {
    let set = Bitboard((1u128 << 80) | (1 << 17) | (1 << 3));
    let mut it = set.into_iter();
    assert_eq!(it.next(), Some(Square(3)));
    assert_eq!(it.next(), Some(Square(17)));
    assert_eq!(it.next(), Some(Square(80)));
    assert_eq!(it.next(), None);
    assert_eq!(it.next(), None);
    assert_eq!(set.squares(), vec![Square(3), Square(17), Square(80)]);
    assert_eq!(set.raw(), (1u128 << 80) | (1 << 17) | (1 << 3));
    assert_eq!(Bitboard::empty().squares(), vec![]);
    assert_eq!(Bitboard::full().squares().len(), 81);
}

#[test]
fn contains_tests_membership() {
    let set = Bitboard((1u128 << 80) | 1);
    assert!(set.contains(Square(0)));
    assert!(set.contains(Square(80)));
    assert!(!set.contains(Square(40)));
}

#[test]
fn bitboard_text() {
    let set = Bitboard((1u128 << 80) | 1);
    let expected = "000000001\n000000000\n000000000\n000000000\n000000000\n000000000\n000000000\n000000000\n100000000\n";
    assert_eq!(set.to_string(), expected);
    assert_eq!(set.to_chars().len(), 90);
}
