use shogi_core::board::Board;
use shogi_core::generate::drop_squares;
use shogi_core::generate::generate;
use shogi_core::generate::in_zone;
use shogi_core::fen::read_fen;
use shogi_core::text::chars_of;
use shogi_core::types::action::Action;
use shogi_core::types::action::Actionlist;
use shogi_core::types::bitboard::Bitboard;
use shogi_core::types::piece::Piece;
use shogi_core::types::piece::GOLD;
use shogi_core::types::piece::GOTE;
use shogi_core::types::piece::KNIGHT;
use shogi_core::types::piece::LANCE;
use shogi_core::types::piece::PAWN;
use shogi_core::types::piece::SENTE;
use shogi_core::types::square::Square;

const START: &str = "lnsgkgsnl/1r5b1/ppppppppp/9/9/9/PPPPPPPPP/1B5R1/LNSGKGSNL b - 1";

fn actions_of(text: &str) -> Actionlist {
    let mut board = Board::new();
    assert_eq!(board.load_fen(text), Ok(()));
    board.get_actions()
}

fn mv(from: u8, to: u8) -> Action {
    Action::new_move(Square(from), Square(to), false)
}

fn promo(from: u8, to: u8) -> Action {
    Action::new_move(Square(from), Square(to), true)
}

fn no_duplicates(list: &Actionlist) {
    for i in 0..list.len() {
        for j in 0..i {
            assert_ne!(list.get(i), list.get(j));
        }
    }
}

#[test]
fn start_position_has_thirty_moves_and_no_drop() {
    let list = actions_of(START);
    assert_eq!(list.len(), 30);
    no_duplicates(&list);
    let mut expected = vec![];
    for f in 0..9u8 {
        expected.push(mv(18 + f, 27 + f));
    }
    expected.extend([mv(0, 9), mv(8, 17)]);
    expected.extend([mv(2, 11), mv(2, 12), mv(6, 14), mv(6, 15)]);
    expected.extend([mv(3, 11), mv(3, 12), mv(3, 13), mv(5, 13), mv(5, 14), mv(5, 15)]);
    expected.extend([mv(4, 12), mv(4, 13), mv(4, 14)]);
    expected.extend([mv(16, 17), mv(16, 15), mv(16, 14), mv(16, 13), mv(16, 12), mv(16, 11)]);
    assert_eq!(expected.len(), 30);
    for a in expected {
        assert!(list.contains(a));
    }
    for i in 0..list.len() {
        assert!(!list.get(i).is_drop());
        assert!(!list.get(i).is_promotion());
    }
}

#[test]
fn start_position_for_the_second_side() {
    let list = actions_of("lnsgkgsnl/1r5b1/ppppppppp/9/9/9/PPPPPPPPP/1B5R1/LNSGKGSNL w - 1");
    assert_eq!(list.len(), 30);
    no_duplicates(&list);
    for f in 0..9u8 {
        assert!(list.contains(mv(54 + f, 45 + f)));
    }
    assert!(list.contains(mv(72, 63)));
    assert!(list.contains(mv(64, 63)));
    assert!(!list.contains(mv(18, 27)));
}

#[test]
fn bishop_to_53_does_not_promote_and_to_54_does() {
    let list = actions_of("9/9/9/9/7B1/9/9/9/9 b -");
    assert!(list.contains(mv(43, 53)));
    assert!(!list.contains(promo(43, 53)));
    let list = actions_of("9/9/9/1B7/9/9/9/9/9 b -");
    assert!(list.contains(mv(46, 54)));
    assert!(list.contains(promo(46, 54)));
    no_duplicates(&list);
}

#[test]
fn a_move_out_of_the_zone_may_promote() {
    let list = actions_of("9/9/7B1/9/9/9/9/9/9 b -");
    assert!(list.contains(mv(61, 53)));
    assert!(list.contains(promo(61, 53)));
    assert!(list.contains(promo(61, 71)));
    assert!(list.contains(promo(61, 1)));
    no_duplicates(&list);
}

#[test]
fn promotion_zone_of_the_second_side() {
    let list = actions_of("9/9/9/9/9/9/1b7/9/9 w -");
    assert!(list.contains(mv(19, 27)));
    assert!(list.contains(promo(19, 27)));
    assert!(list.contains(promo(19, 9)));
    let list = actions_of("9/9/9/9/9/1b7/9/9/9 w -");
    assert!(list.contains(mv(28, 36)));
    assert!(!list.contains(promo(28, 36)));
    assert!(list.contains(promo(28, 20)));
    assert!(list.contains(mv(28, 20)));
    assert!(in_zone(1, Square(26)));
    assert!(!in_zone(1, Square(27)));
    assert!(in_zone(0, Square(54)));
    assert!(!in_zone(0, Square(53)));
}

#[test]
fn gold_king_and_promoted_pieces_never_promote() {
    let list = actions_of("9/9/4G4/3K1+L3/9/9/9/9/9 b -");
    assert!(list.len() > 0);
    for i in 0..list.len() {
        assert!(!list.get(i).is_promotion());
    }
}

#[test]
fn pawn_moves_come_once_with_their_promotions() {
    let list = actions_of("9/9/9/4P4/9/9/9/P8/9 b -");
    assert_eq!(list.len(), 3);
    assert!(list.contains(mv(49, 58)));
    assert!(list.contains(promo(49, 58)));
    assert!(list.contains(mv(9, 18)));
    no_duplicates(&list);
    let list = actions_of("P8/9/9/9/9/9/9/9/9 b -");
    assert_eq!(list.len(), 0);
}

#[test]
fn own_pieces_block_and_enemy_pieces_are_taken() {
    let list = actions_of("9/9/9/9/9/4p4/4P4/4R4/9 b -");
    assert!(!list.contains(mv(13, 22)));
    assert!(list.contains(mv(22, 31)));
    assert!(!list.contains(mv(22, 40)));
    assert!(list.contains(mv(13, 4)));
    assert!(list.contains(mv(13, 9)));
    assert!(list.contains(mv(13, 17)));
    assert_eq!(list.len(), 1 + 8 + 1);
}

#[test]
fn no_pawn_drop_on_a_file_with_an_own_pawn() {
    let list = actions_of("9/9/9/9/9/9/3P5/9/9 b P 1");
    let pawn = Piece::new_unchecked(PAWN, SENTE);
    let mut drops = 0;
    for i in 0..list.len() {
        let a = list.get(i);
        if a.is_drop() {
            drops += 1;
            assert_eq!(a.dropped(), Some(pawn));
            assert_ne!(a.to().file(), 3);
            assert_ne!(a.to().rank(), 8);
        }
    }
    assert_eq!(drops, 64);
    assert_eq!(list.len(), 65);
    no_duplicates(&list);
    assert!(list.contains(Action::new_drop(pawn, Square(0))));
    assert!(!list.contains(Action::new_drop(pawn, Square(3))));
    assert!(!list.contains(Action::new_drop(pawn, Square(75))));
    assert!(!list.contains(Action::new_drop(pawn, Square(72))));
}

#[test]
fn a_promoted_pawn_or_an_enemy_pawn_does_not_close_a_file() {
    let list = actions_of("9/9/9/9/9/9/3+P1p3/9/9 b P 1");
    let pawn = Piece::new_unchecked(PAWN, SENTE);
    assert!(list.contains(Action::new_drop(pawn, Square(3))));
    assert!(list.contains(Action::new_drop(pawn, Square(5))));
    assert!(!list.contains(Action::new_drop(pawn, Square(21))));
    assert!(!list.contains(Action::new_drop(pawn, Square(23))));
}

#[test]
fn drop_squares_by_category() {
    let parsed = read_fen(&chars_of("9/9/9/9/9/9/3P5/9/9 b -")).unwrap();
    let pos = parsed.position;
    let empty = Bitboard::full().without(Bitboard::from_square(Square(21)));
    assert_eq!(drop_squares(&pos, GOLD, 0), empty);
    assert_eq!(drop_squares(&pos, GOLD, 1), empty);
    assert_eq!(drop_squares(&pos, LANCE, 0), empty.without(Bitboard::from_rank(8)));
    assert_eq!(drop_squares(&pos, LANCE, 1), empty.without(Bitboard::from_rank(0)));
    assert_eq!(
        drop_squares(&pos, KNIGHT, 0),
        empty.without(Bitboard::from_rank(8)).without(Bitboard::from_rank(7))
    );
    assert_eq!(
        drop_squares(&pos, KNIGHT, 1),
        empty.without(Bitboard::from_rank(0)).without(Bitboard::from_rank(1))
    );
    assert_eq!(
        drop_squares(&pos, PAWN, 0),
        Bitboard::full().without(Bitboard::from_rank(8)).without(Bitboard::from_file(3))
    );
    assert_eq!(drop_squares(&pos, PAWN, 1), empty.without(Bitboard::from_rank(0)));
}

#[test]
fn drops_of_the_second_side() {
    let list = actions_of("9/9/3p5/9/9/9/9/9/9 w pN 1");
    let pawn = Piece::new_unchecked(PAWN, GOTE);
    let mut drops = 0;
    for i in 0..list.len() {
        let a = list.get(i);
        if a.is_drop() {
            drops += 1;
            assert_eq!(a.dropped(), Some(pawn));
            assert_ne!(a.to().file(), 3);
            assert_ne!(a.to().rank(), 0);
        }
    }
    assert_eq!(drops, 64);
    assert_eq!(list.len(), 65);
    assert!(list.contains(mv(57, 48)));
}

#[test]
fn every_held_category_is_dropped() {
    let list = actions_of("9/9/9/9/9/9/9/9/9 b PLNSBRG");
    assert_eq!(list.len(), 72 + 72 + 63 + 4 * 81);
    no_duplicates(&list);
    let list = actions_of("9/9/9/9/9/9/9/9/9 b plnsbrg");
    assert_eq!(list.len(), 0);
}

#[test]
fn generate_works_on_a_position_alone() {
    let parsed = read_fen(&chars_of(START)).unwrap();
    assert_eq!(generate(&parsed.position, 0).len(), 30);
    assert_eq!(generate(&parsed.position, 1).len(), 30);
}
