use shogi_core::movegen::get_attacks;
use shogi_core::movegen::get_bishop_attacks;
use shogi_core::movegen::get_gold_attacks;
use shogi_core::movegen::get_king_attacks;
use shogi_core::movegen::get_knight_attacks;
use shogi_core::movegen::get_lance_attacks;
use shogi_core::movegen::get_pawn_attacks;
use shogi_core::movegen::get_rook_attacks;
use shogi_core::movegen::get_silver_attacks;
use shogi_core::movegen::setwise_pawns;
use shogi_core::types::bitboard::Bitboard;
use shogi_core::types::piece::PROMO_BISHOP;
use shogi_core::types::piece::PROMO_ROOK;
use shogi_core::types::piece::PROMO_SILVER;
use shogi_core::types::square::Square;

fn set(squares: &[u8]) -> Bitboard {
    let mut raw = 0u128;
    for s in squares {
        raw |= 1u128 << *s;
    }
    Bitboard(raw)
}

#[test]
fn king_in_the_middle_and_in_the_corner() {
    assert_eq!(get_king_attacks(Square(40)), set(&[30, 31, 32, 39, 41, 48, 49, 50]));
    assert_eq!(get_king_attacks(Square(0)), set(&[1, 9, 10]));
    assert_eq!(get_king_attacks(Square(80)), set(&[70, 71, 79]));
    assert_eq!(get_king_attacks(Square(8)), set(&[7, 16, 17]));
}

#[test]
fn gold_mirrors_between_the_sides() {
    assert_eq!(get_gold_attacks(Square(40), 0), set(&[48, 49, 50, 39, 41, 31]));
    assert_eq!(get_gold_attacks(Square(40), 1), set(&[30, 31, 32, 39, 41, 49]));
    assert_eq!(get_gold_attacks(Square(76), 0), set(&[75, 77, 67]));
}

#[test]
fn silver_mirrors_between_the_sides() {
    assert_eq!(get_silver_attacks(Square(40), 0), set(&[48, 49, 50, 30, 32]));
    assert_eq!(get_silver_attacks(Square(40), 1), set(&[30, 31, 32, 48, 50]));
    assert_eq!(get_silver_attacks(Square(0), 0), set(&[9, 10]));
}

#[test]
fn knight_jumps_two_ranks() {
    assert_eq!(get_knight_attacks(Square(40), 0), set(&[57, 59]));
    assert_eq!(get_knight_attacks(Square(40), 1), set(&[21, 23]));
    assert_eq!(get_knight_attacks(Square(0), 0), set(&[19]));
    assert_eq!(get_knight_attacks(Square(70), 0), set(&[]));
    assert_eq!(get_knight_attacks(Square(10), 1), set(&[]));
}

#[test]
fn pawn_steps_forward() {
    assert_eq!(get_pawn_attacks(Square(40), 0), set(&[49]));
    assert_eq!(get_pawn_attacks(Square(40), 1), set(&[31]));
    assert_eq!(get_pawn_attacks(Square(76), 0), set(&[]));
    assert_eq!(get_pawn_attacks(Square(4), 1), set(&[]));
}

#[test]
fn lance_stops_at_the_first_piece() {
    let empty = Bitboard::empty();
    assert_eq!(get_lance_attacks(Square(4), empty, 0), set(&[13, 22, 31, 40, 49, 58, 67, 76]));
    assert_eq!(get_lance_attacks(Square(76), empty, 1), set(&[67, 58, 49, 40, 31, 22, 13, 4]));
    assert_eq!(get_lance_attacks(Square(4), set(&[31, 49]), 0), set(&[13, 22, 31]));
    assert_eq!(get_lance_attacks(Square(76), set(&[67]), 1), set(&[67]));
    assert_eq!(get_lance_attacks(Square(76), empty, 0), set(&[]));
}

#[test]
fn rook_slides_along_rank_and_file() {
    let empty = Bitboard::empty();
    assert_eq!(
        get_rook_attacks(Square(40), empty),
        set(&[36, 37, 38, 39, 41, 42, 43, 44, 4, 13, 22, 31, 49, 58, 67, 76])
    );
    assert_eq!(
        get_rook_attacks(Square(40), set(&[38, 41, 58, 40])),
        set(&[38, 39, 41, 4, 13, 22, 31, 49, 58])
    );
    assert_eq!(get_rook_attacks(Square(0), empty).popcount(), 16);
}

#[test]
fn bishop_slides_along_diagonals() {
    let empty = Bitboard::empty();
    assert_eq!(
        get_bishop_attacks(Square(40), empty),
        set(&[0, 10, 20, 30, 50, 60, 70, 80, 8, 16, 24, 32, 48, 56, 64, 72])
    );
    assert_eq!(
        get_bishop_attacks(Square(40), set(&[20, 48, 80])),
        set(&[20, 30, 50, 60, 70, 80, 8, 16, 24, 32, 48])
    );
    assert_eq!(get_bishop_attacks(Square(8), empty), set(&[16, 24, 32, 40, 48, 56, 64, 72]));
}

#[test]
fn attacks_by_category() {
    let occ = set(&[20, 48, 80]);
    assert_eq!(get_attacks(0, Square(40), occ, 0), get_pawn_attacks(Square(40), 0));
    assert_eq!(get_attacks(1, Square(40), occ, 1), get_lance_attacks(Square(40), occ, 1));
    assert_eq!(get_attacks(2, Square(40), occ, 0), get_knight_attacks(Square(40), 0));
    assert_eq!(get_attacks(3, Square(40), occ, 1), get_silver_attacks(Square(40), 1));
    assert_eq!(get_attacks(4, Square(40), occ, 0), get_bishop_attacks(Square(40), occ));
    assert_eq!(get_attacks(5, Square(40), occ, 0), get_rook_attacks(Square(40), occ));
    assert_eq!(get_attacks(6, Square(40), occ, 1), get_gold_attacks(Square(40), 1));
    assert_eq!(get_attacks(7, Square(40), occ, 1), get_king_attacks(Square(40)));
    for kind in [8u8, 9, 10, PROMO_SILVER] {
        assert_eq!(get_attacks(kind, Square(40), occ, 0), get_gold_attacks(Square(40), 0));
    }
    assert_eq!(
        get_attacks(PROMO_BISHOP, Square(40), occ, 0),
        get_bishop_attacks(Square(40), occ) | get_king_attacks(Square(40))
    );
    assert_eq!(
        get_attacks(PROMO_ROOK, Square(40), occ, 0),
        get_rook_attacks(Square(40), occ) | get_king_attacks(Square(40))
    );
    assert_eq!(get_attacks(PROMO_ROOK, Square(40), occ, 0).popcount(), 20);
}

#[test]
fn setwise_pawns_shifts_one_rank() {
    let pawns = set(&[18, 19, 40, 76]);
    assert_eq!(setwise_pawns(pawns, 0), set(&[27, 28, 49]));
    let pawns = set(&[4, 54, 62]);
    assert_eq!(setwise_pawns(pawns, 1), set(&[45, 53]));
}

#[test]
fn setwise_pawns_agrees_with_the_rule_for_one_pawn() {
    let pawns = set(&[0, 18, 19, 40, 62, 72, 76, 80]);
    for side in [0u8, 1] {
        let mut union = Bitboard::empty();
        for sq in pawns.squares() {
            union = union | get_pawn_attacks(sq, side);
        }
        assert_eq!(setwise_pawns(pawns, side), union);
    }
}
