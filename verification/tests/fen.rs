use shogi_core::board::Board;
use shogi_core::fen::read_fen;
use shogi_core::fen::FenError;
use shogi_core::text::chars_of;
use shogi_core::types::bitboard::Bitboard;
use shogi_core::types::piece::Piece;
use shogi_core::types::piece::BISHOP;
use shogi_core::types::piece::GOLD;
use shogi_core::types::piece::GOTE;
use shogi_core::types::piece::KING;
use shogi_core::types::piece::KNIGHT;
use shogi_core::types::piece::LANCE;
use shogi_core::types::piece::PAWN;
use shogi_core::types::piece::PROMO_BISHOP;
use shogi_core::types::piece::PROMO_PAWN;
use shogi_core::types::piece::ROOK;
use shogi_core::types::piece::SENTE;
use shogi_core::types::piece::SILVER;
use shogi_core::types::square::Square;

const START: &str = "lnsgkgsnl/1r5b1/ppppppppp/9/9/9/PPPPPPPPP/1B5R1/LNSGKGSNL b - 1";

fn error_of(text: &str) -> Option<FenError> {
    match read_fen(&chars_of(text)) {
        Ok(_) => None,
        Err(e) => Some(e),
    }
}

#[test]
fn start_position_places_forty_pieces() {
    let mut board = Board::new();
    assert_eq!(board.load_fen(START), Ok(()));
    assert_eq!(board.stm(), 0);
    assert_eq!(board.ply(), 1);
    assert_eq!(board.history_len(), 2);
    let back = [LANCE, KNIGHT, SILVER, GOLD, KING, GOLD, SILVER, KNIGHT, LANCE];
    for f in 0..9u8 {
        assert_eq!(board.piece_on_square(Square(f)), Piece::new_unchecked(back[f as usize], SENTE));
        assert_eq!(board.piece_on_square(Square(18 + f)), Piece::new_unchecked(PAWN, SENTE));
        assert_eq!(board.piece_on_square(Square(54 + f)), Piece::new_unchecked(PAWN, GOTE));
        assert_eq!(
            board.piece_on_square(Square(72 + f)),
            Piece::new_unchecked(back[f as usize], GOTE)
        );
        for r in 3..6u8 {
            assert_eq!(board.piece_on_square(Square(9 * r + f)), Piece::none());
        }
    }
    assert_eq!(board.piece_on_square(Square(10)), Piece::new_unchecked(BISHOP, SENTE));
    assert_eq!(board.piece_on_square(Square(16)), Piece::new_unchecked(ROOK, SENTE));
    assert_eq!(board.piece_on_square(Square(64)), Piece::new_unchecked(ROOK, GOTE));
    assert_eq!(board.piece_on_square(Square(70)), Piece::new_unchecked(BISHOP, GOTE));
    let parsed = read_fen(&chars_of(START)).unwrap();
    assert_eq!(parsed.position.occupied().popcount(), 40);
    assert_eq!(parsed.position.side_squares(0).popcount(), 20);
    assert_eq!(parsed.position.side_squares(1).popcount(), 20);
    assert_eq!(parsed.position.sided_piece(PAWN, SENTE), Bitboard::from_rank(2));
    assert_eq!(parsed.position.sided_piece(PAWN, GOTE), Bitboard::from_rank(6));
    assert!(parsed.position.hand(0).is_empty());
    assert!(parsed.position.hand(1).is_empty());
}

#[test]
fn new_board_is_empty() {
    let board = Board::new();
    assert_eq!(board.history_len(), 1);
    assert_eq!(board.stm(), 0);
    assert_eq!(board.ply(), 0);
    assert_eq!(board.piece_on_square(Square(4)), Piece::none());
    assert!(board.get_actions().is_empty());
    assert_eq!(Board::default().history_len(), 1);
}

#[test]
fn side_to_move_tokens() {
    let mut board = Board::new();
    assert_eq!(board.load_fen("9 w -"), Ok(()));
    assert_eq!(board.stm(), 1);
    assert_eq!(board.load_fen("9 b -"), Ok(()));
    assert_eq!(board.stm(), 0);
    assert_eq!(board.load_fen("9 W -"), Ok(()));
    assert_eq!(board.stm(), 0);
    assert_eq!(board.load_fen("9 ww -"), Ok(()));
    assert_eq!(board.stm(), 0);
    assert_eq!(board.history_len(), 5);
}

#[test]
fn ply_is_kept_when_absent() {
    let mut board = Board::new();
    assert_eq!(board.load_fen("9 b - 37"), Ok(()));
    assert_eq!(board.ply(), 37);
    assert_eq!(board.load_fen("9 b -"), Ok(()));
    assert_eq!(board.ply(), 37);
    assert_eq!(board.load_fen("9 b - -5 ignored"), Ok(()));
    assert_eq!(board.ply(), -5);
    assert_eq!(board.load_fen("9 b - +32767"), Ok(()));
    assert_eq!(board.ply(), 32767);
    assert_eq!(board.load_fen("9 b - -32768"), Ok(()));
    assert_eq!(board.ply(), -32768);
    assert_eq!(board.load_fen("9 b - 007"), Ok(()));
    assert_eq!(board.ply(), 7);
}

#[test]
fn white_space_of_every_kind_separates_fields() {
    let mut board = Board::new();
    assert_eq!(board.load_fen("  \t4K4\n w\r\x0c-   12  "), Ok(()));
    assert_eq!(board.stm(), 1);
    assert_eq!(board.ply(), 12);
    assert_eq!(board.piece_on_square(Square(4)), Piece::new_unchecked(KING, SENTE));
}

#[test]
fn groups_are_read_last_first_and_run_on() {
    let parsed = read_fen(&chars_of("k/4/P b -")).unwrap();
    assert_eq!(parsed.position.piece_on_square(Square(0)), Piece::new_unchecked(PAWN, SENTE));
    assert_eq!(parsed.position.piece_on_square(Square(5)), Piece::new_unchecked(KING, GOTE));
    assert_eq!(parsed.position.occupied().popcount(), 2);
    let parsed = read_fen(&chars_of("//P1p// b -")).unwrap();
    assert_eq!(parsed.position.piece_on_square(Square(0)), Piece::new_unchecked(PAWN, SENTE));
    assert_eq!(parsed.position.piece_on_square(Square(2)), Piece::new_unchecked(PAWN, GOTE));
    let parsed = read_fen(&chars_of("0P0 b -")).unwrap();
    assert_eq!(parsed.position.piece_on_square(Square(0)), Piece::new_unchecked(PAWN, SENTE));
}

#[test]
fn promotion_marker_applies_to_the_next_letter_only() {
    let parsed = read_fen(&chars_of("+PP+b b -")).unwrap();
    assert_eq!(parsed.position.piece_on_square(Square(0)), Piece::new_unchecked(PROMO_PAWN, SENTE));
    assert_eq!(parsed.position.piece_on_square(Square(1)), Piece::new_unchecked(PAWN, SENTE));
    assert_eq!(parsed.position.piece_on_square(Square(2)), Piece::new_unchecked(PROMO_BISHOP, GOTE));
}

#[test]
fn hands_are_read_with_counts() {
    let parsed = read_fen(&chars_of("9 b 2P18pRb3g")).unwrap();
    let sente = parsed.position.hand(0);
    let gote = parsed.position.hand(1);
    assert_eq!(sente.get(Piece::new_unchecked(PAWN, SENTE)), 2);
    assert_eq!(sente.get(Piece::new_unchecked(ROOK, SENTE)), 1);
    assert_eq!(sente.get(Piece::new_unchecked(GOLD, SENTE)), 0);
    assert_eq!(gote.get(Piece::new_unchecked(PAWN, GOTE)), 18);
    assert_eq!(gote.get(Piece::new_unchecked(BISHOP, GOTE)), 1);
    assert_eq!(gote.get(Piece::new_unchecked(GOLD, GOTE)), 3);
    let parsed = read_fen(&chars_of("9 b 3PP0L")).unwrap();
    assert_eq!(parsed.position.hand(0).get(Piece::new_unchecked(PAWN, SENTE)), 1);
    assert_eq!(parsed.position.hand(0).get(Piece::new_unchecked(LANCE, SENTE)), 0);
    assert!(parsed.position.hand(0).to_string(0) == "P");
}

#[test]
fn missing_fields() {
    assert_eq!(error_of(""), Some(FenError::MissingPlacement));
    assert_eq!(error_of("  \n "), Some(FenError::MissingPlacement));
    assert_eq!(error_of("9"), Some(FenError::MissingSideToMove));
    assert_eq!(error_of("9 b"), Some(FenError::MissingHand));
    assert_eq!(error_of("9 b -"), None);
}

#[test]
fn bad_placement() {
    assert_eq!(error_of("9x b -"), Some(FenError::BadPlacement));
    assert_eq!(error_of("x"), Some(FenError::BadPlacement));
    assert_eq!(error_of("+G b -"), Some(FenError::BadPlacement));
    assert_eq!(error_of("+k b -"), Some(FenError::BadPlacement));
    assert_eq!(error_of("++P b -"), Some(FenError::BadPlacement));
    assert_eq!(error_of("+3P b -"), Some(FenError::BadPlacement));
    assert_eq!(error_of("P+ b -"), Some(FenError::BadPlacement));
    assert_eq!(error_of("+/P b -"), Some(FenError::BadPlacement));
    assert_eq!(error_of("9/9/9/9/9/9/9/9/9/P b -"), Some(FenError::BadPlacement));
    assert_eq!(error_of("9/9/9/9/9/9/9/9/91 b -"), Some(FenError::BadPlacement));
    assert_eq!(error_of("9/9/9/9/9/9/9/9/81 b -"), None);
    assert_eq!(error_of("9/9/9/9/9/9/9/9/9 b -"), None);
    assert_eq!(error_of("9/9/9/9/9/9/9/9/9/ b -"), None);
    assert_eq!(error_of("9/9/9/9/9/9/9/9/8P b -"), None);
    assert_eq!(error_of("-"), Some(FenError::BadPlacement));
}

#[test]
fn bad_hand() {
    assert_eq!(error_of("9 b K"), Some(FenError::BadHand));
    assert_eq!(error_of("9 b k"), Some(FenError::BadHand));
    assert_eq!(error_of("9 b 19P"), Some(FenError::BadHand));
    assert_eq!(error_of("9 b 2"), Some(FenError::BadHand));
    assert_eq!(error_of("9 b L2"), Some(FenError::BadHand));
    assert_eq!(error_of("9 b P-"), Some(FenError::BadHand));
    assert_eq!(error_of("9 b --"), Some(FenError::BadHand));
    assert_eq!(error_of("9 b +P"), Some(FenError::BadHand));
    assert_eq!(error_of("9 b 18P"), None);
    assert_eq!(error_of("9 b 018P"), None);
}

#[test]
fn bad_ply() {
    assert_eq!(error_of("9 b - x"), Some(FenError::BadPly));
    assert_eq!(error_of("9 b - 1x"), Some(FenError::BadPly));
    assert_eq!(error_of("9 b - +"), Some(FenError::BadPly));
    assert_eq!(error_of("9 b - -"), Some(FenError::BadPly));
    assert_eq!(error_of("9 b - +-1"), Some(FenError::BadPly));
    assert_eq!(error_of("9 b - 32768"), Some(FenError::BadPly));
    assert_eq!(error_of("9 b - -32769"), Some(FenError::BadPly));
    assert_eq!(error_of("9 b - 99999999999999999999"), Some(FenError::BadPly));
    assert_eq!(error_of("9 b - 0"), None);
}

#[test]
fn the_first_fault_is_reported() {
    assert_eq!(error_of("x b K y"), Some(FenError::BadPlacement));
    assert_eq!(error_of("9 b K y"), Some(FenError::BadHand));
    assert_eq!(error_of("x"), Some(FenError::BadPlacement));
}

#[test]
fn a_rejected_text_leaves_the_board_as_it_was() {
    let mut board = Board::new();
    assert_eq!(board.load_fen("4K4 w 2P 9"), Ok(()));
    for text in ["", "9", "9 b", "x b - 3", "9 b K 3", "9 b - x"] {
        assert!(board.load_fen(text).is_err());
        assert_eq!(board.history_len(), 2);
        assert_eq!(board.stm(), 1);
        assert_eq!(board.ply(), 9);
        assert_eq!(board.piece_on_square(Square(4)), Piece::new_unchecked(KING, SENTE));
    }
}

#[test]
fn history_grows_past_its_first_capacity() {
    let mut board = Board::new();
    for _ in 0..300 {
        assert_eq!(board.load_fen("4K4 b -"), Ok(()));
    }
    assert_eq!(board.history_len(), 301);
    let copy = board.clone();
    assert_eq!(copy.history_len(), 301);
    assert_eq!(copy.piece_on_square(Square(4)), Piece::new_unchecked(KING, SENTE));
}
