use shogi_core::board::Board;

const START: &str = "lnsgkgsnl/1r5b1/ppppppppp/9/9/9/PPPPPPPPP/1B5R1/LNSGKGSNL b - 1";

#[test]
fn start_position_is_drawn_as_the_initial_array() {
    let mut board = Board::new();
    assert_eq!(board.load_fen(START), Ok(()));
    let expected = "\
┌───┬───┬───┬───┬───┬───┬───┬───┬───┐
│ l │ n │ s │ g │ k │ g │ s │ n │ l │
├───┼───┼───┼───┼───┼───┼───┼───┼───┤
│   │ r │   │   │   │   │   │ b │   │
├───┼───┼───┼───┼───┼───┼───┼───┼───┤
│ p │ p │ p │ p │ p │ p │ p │ p │ p │
├───┼───┼───┼───┼───┼───┼───┼───┼───┤
│   │   │   │   │   │   │   │   │   │
├───┼───┼───┼───┼───┼───┼───┼───┼───┤
│   │   │   │   │   │   │   │   │   │
├───┼───┼───┼───┼───┼───┼───┼───┼───┤
│   │   │   │   │   │   │   │   │   │
├───┼───┼───┼───┼───┼───┼───┼───┼───┤
│ P │ P │ P │ P │ P │ P │ P │ P │ P │
├───┼───┼───┼───┼───┼───┼───┼───┼───┤
│   │ B │   │   │   │   │   │ R │   │
├───┼───┼───┼───┼───┼───┼───┼───┼───┤
│ L │ N │ S │ G │ K │ G │ S │ N │ L │
└───┴───┴───┴───┴───┴───┴───┴───┴───┘

stm: sente
sente hand: -
gote hand: -
ply count: 1
";
    assert_eq!(board.render_state(), expected);
}

#[test]
fn promoted_pieces_hands_and_negative_ply_are_drawn() {
    let mut board = Board::new();
    assert_eq!(board.load_fen("+r8/9/9/9/9/9/9/9/8+P w 2PR3g18p -12"), Ok(()));
    let text = board.render_state();
    let lines: Vec<&str> = text.lines().collect();
    assert_eq!(lines.len(), 24);
    assert_eq!(lines[1], "│+r │   │   │   │   │   │   │   │   │");
    assert_eq!(lines[17], "│   │   │   │   │   │   │   │   │+P │");
    assert_eq!(lines[19], "");
    assert_eq!(lines[20], "stm: gote");
    assert_eq!(lines[21], "sente hand: 2PR");
    assert_eq!(lines[22], "gote hand: 18p3g");
    assert_eq!(lines[23], "ply count: -12");
}

#[test]
fn empty_board_is_drawn() {
    let board = Board::new();
    let text = board.render_state();
    assert!(text.starts_with("┌───┬"));
    assert!(text.ends_with("stm: sente\nsente hand: -\ngote hand: -\nply count: 0\n"));
    assert_eq!(text.chars().count(), 19 * 38 + 1 + 11 + 14 + 13 + 13);
}
