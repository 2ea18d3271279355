use shogi_core::board::Position;
use shogi_core::types::bitboard::Bitboard;
use shogi_core::types::piece::Piece;
use shogi_core::types::piece::GOTE;
use shogi_core::types::piece::PAWN;
use shogi_core::types::piece::ROOK;
use shogi_core::types::piece::SENTE;
use shogi_core::types::square::Square;

fn views_agree(pos: &Position) {
    assert_eq!(pos.side_squares(0).const_and(pos.side_squares(1)), Bitboard::empty());
    for s in 0..81u8 {
        let piece = pos.piece_on_square(Square(s));
        let mut marked = pos.occupied().contains(Square(s));
        for kind in 0..14u8 {
            for side in 0..2u8 {
                let here = pos.sided_piece(kind, side).contains(Square(s));
                marked = marked || here;
                assert_eq!(here, piece == Piece::new_unchecked(kind, side));
            }
        }
        assert_eq!(piece == Piece::none(), !marked);
    }
}

#[test]
fn empty_position_has_nothing() {
    let pos = Position::new();
    assert_eq!(pos.occupied(), Bitboard::empty());
    assert_eq!(pos.piece_on_square(Square(40)), Piece::none());
    assert!(pos.hand(0).is_empty());
    assert!(pos.hand(1).is_empty());
    views_agree(&pos);
    views_agree(&Position::default());
}

#[test]
fn add_then_remove_restores_none() {
    let mut pos = Position::new();
    let rook = Piece::new_unchecked(ROOK, GOTE);
    pos.add_piece(Square(33), rook);
    assert_eq!(pos.piece_on_square(Square(33)), rook);
    assert!(pos.occupied().contains(Square(33)));
    assert!(pos.sided_piece(ROOK, GOTE).contains(Square(33)));
    assert!(pos.side_squares(GOTE).contains(Square(33)));
    assert!(!pos.side_squares(SENTE).contains(Square(33)));
    views_agree(&pos);
    pos.remove_piece(Square(33), rook);
    assert_eq!(pos.piece_on_square(Square(33)), Piece::none());
    assert_eq!(pos.occupied(), Bitboard::empty());
    assert_eq!(pos.sided_piece(ROOK, GOTE), Bitboard::empty());
    views_agree(&pos);
}

#[test]
fn move_piece_with_and_without_victim() {
    let mut pos = Position::new();
    let rook = Piece::new_unchecked(ROOK, SENTE);
    let pawn = Piece::new_unchecked(PAWN, GOTE);
    pos.add_piece(Square(10), rook);
    pos.add_piece(Square(46), pawn);
    pos.move_piece(Square(10), rook, Square(28), Piece::none());
    assert_eq!(pos.piece_on_square(Square(10)), Piece::none());
    assert_eq!(pos.piece_on_square(Square(28)), rook);
    views_agree(&pos);
    pos.move_piece(Square(28), rook, Square(46), pawn);
    assert_eq!(pos.piece_on_square(Square(28)), Piece::none());
    assert_eq!(pos.piece_on_square(Square(46)), rook);
    assert_eq!(pos.occupied(), Bitboard::from_square(Square(46)));
    assert_eq!(pos.side_squares(GOTE), Bitboard::empty());
    assert_eq!(pos.sided_piece(PAWN, GOTE), Bitboard::empty());
    views_agree(&pos);
}

#[test]
fn hands_are_set_per_side() {
    let mut pos = Position::new();
    pos.set_hand(Piece::new_unchecked(PAWN, GOTE), 3);
    pos.set_hand(Piece::new_unchecked(ROOK, SENTE), 1);
    assert_eq!(pos.hand(1).get(Piece::new_unchecked(PAWN, GOTE)), 3);
    assert_eq!(pos.hand(0).get(Piece::new_unchecked(PAWN, SENTE)), 0);
    assert_eq!(pos.hand(0).get(Piece::new_unchecked(ROOK, SENTE)), 1);
    assert_eq!(pos.occupied(), Bitboard::empty());
}
