use shogi_core::types::action::Action;
use shogi_core::types::action::Actionlist;
use shogi_core::types::hand::Hand;
use shogi_core::types::piece::Piece;
use shogi_core::types::piece::GOLD;
use shogi_core::types::piece::GOTE;
use shogi_core::types::piece::KING;
use shogi_core::types::piece::PAWN;
use shogi_core::types::piece::PROMO_PAWN;
use shogi_core::types::piece::PROMO_ROOK;
use shogi_core::types::piece::ROOK;
use shogi_core::types::piece::SENTE;
use shogi_core::types::square::Square;

#[test]
fn square_coordinates() {
    let sq = Square::new(4, 7);
    assert_eq!(sq, Square(67));
    assert_eq!(sq.file(), 4);
    assert_eq!(sq.rank(), 7);
    assert_eq!(sq.raw(), 67);
    assert_eq!(sq.as_usize(), 67);
    assert_eq!(sq.as_u16(), 67);
    assert!(sq.is_valid());
    assert!(Square(80).is_valid());
    assert!(!Square(81).is_valid());
}

#[test]
fn piece_basics() {
    let p = Piece::new_unchecked(ROOK, GOTE);
    assert_eq!(p.piece(), ROOK);
    assert_eq!(p.side(), GOTE);
    assert!(p.is_piece());
    assert!(!p.is_promoted());
    assert_eq!(p.promoted(), Piece::new_unchecked(PROMO_ROOK, GOTE));
    assert!(p.promoted().is_promoted());
    assert_eq!(p.as_stm(SENTE), Piece::new_unchecked(ROOK, SENTE));
    assert_eq!(Piece::new(ROOK, GOTE), Some(p));
    assert_eq!(Piece::new(14, 0), None);
    assert_eq!(Piece::new(0, 2), None);
    assert!(!Piece::none().is_piece());
    assert_eq!(Piece::default(), Piece::none());
}

#[test]
fn piece_text() {
    assert_eq!(Piece::new_unchecked(PAWN, SENTE).to_string(), "P");
    assert_eq!(Piece::new_unchecked(PAWN, GOTE).to_string(), "p");
    assert_eq!(Piece::new_unchecked(PROMO_PAWN, SENTE).to_string(), "+P");
    assert_eq!(Piece::new_unchecked(PROMO_ROOK, GOTE).to_string(), "+r");
    assert_eq!(Piece::new_unchecked(KING, SENTE).to_string(), "K");
    assert_eq!(Piece::new_unchecked(GOLD, GOTE).to_string(), "g");
    assert_eq!(Piece::none().to_string(), " ");
    assert_eq!(Piece::new_unchecked(ROOK, SENTE).letter(), 'R');
}

#[test]
fn hand_set_get_and_text() {
    let mut hand = Hand::new();
    assert!(hand.is_empty());
    assert_eq!(hand.to_string(0), "-");
    assert_eq!(hand.held(), vec![]);
    hand.set(Piece::new_unchecked(ROOK, SENTE), 1);
    hand.set(Piece::new_unchecked(PAWN, SENTE), 18);
    hand.set(Piece::new_unchecked(GOLD, SENTE), 2);
    assert!(!hand.is_empty());
    assert_eq!(hand.get(Piece::new_unchecked(PAWN, SENTE)), 18);
    assert_eq!(hand.get(Piece::new_unchecked(ROOK, GOTE)), 1);
    assert_eq!(hand.get(Piece::new_unchecked(1, SENTE)), 0);
    assert_eq!(hand.to_string(0), "18PR2G");
    assert_eq!(hand.to_string(1), "18pr2g");
    assert_eq!(
        hand.held(),
        vec![
            (Piece::new_unchecked(PAWN, SENTE), 18),
            (Piece::new_unchecked(ROOK, SENTE), 1),
            (Piece::new_unchecked(GOLD, SENTE), 2),
        ]
    );
    hand.set(Piece::new_unchecked(PAWN, SENTE), 0);
    assert_eq!(hand.to_string(0), "R2G");
    assert!(Hand::default().is_empty());
}

#[test]
fn actions_and_lists() {
    let m = Action::new_move(Square(3), Square(12), true);
    let d = Action::new_drop(Piece::new_unchecked(PAWN, SENTE), Square(40));
    assert!(!m.is_drop());
    assert!(d.is_drop());
    assert!(m.is_promotion());
    assert!(!d.is_promotion());
    assert!(!Action::new_move(Square(3), Square(12), false).is_promotion());
    assert_eq!(m.to(), Square(12));
    assert_eq!(d.to(), Square(40));
    assert_eq!(m.from(), Some(Square(3)));
    assert_eq!(d.from(), None);
    assert_eq!(d.dropped(), Some(Piece::new_unchecked(PAWN, SENTE)));
    assert_eq!(m.dropped(), None);
    let mut list = Actionlist::new();
    assert!(list.is_empty());
    list.push(m);
    list.push(d);
    assert_eq!(list.len(), 2);
    assert_eq!(list.get(0), m);
    assert_eq!(list.get(1), d);
    assert!(list.contains(d));
    assert!(!list.contains(Action::new_move(Square(3), Square(12), false)));
    assert!(Actionlist::default().is_empty());
}
