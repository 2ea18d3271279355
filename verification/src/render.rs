//! The picture of a position as text: a ruled grid of nine rows and nine
//! columns, the top row being the rank farthest from square 0, and below it
//! the side to move, the two hands and the ply count.

use crate::board::Position;
use crate::position::PositionView;
use crate::text::signed_decimal;
use crate::text::write_signed_decimal;
use crate::text::write_str;
use crate::types::hand::hand_text;
use crate::types::piece::piece_text;
use crate::types::piece::Piece;
use crate::types::square::Square;
use vstd::prelude::*;

verus! {

/// `n` cells of a ruled line, each three dashes and the joint `joint`.
pub open spec fn rule_cells(joint: char, n: int) -> Seq<char>
    decreases n,
{
    if n <= 0 {
        Seq::empty()
    } else {
        rule_cells(joint, n - 1) + seq!['\u{2500}', '\u{2500}', '\u{2500}', joint]
    }
}

/// A ruled line: the left corner, eight cells that end in `joint`, a ninth
/// that ends in the right corner, and a line feed.
pub open spec fn rule_line(left: char, joint: char, right: char) -> Seq<char> {
    seq![left] + rule_cells(joint, 8) + seq!['\u{2500}', '\u{2500}', '\u{2500}', right, '\n']
}

/// One cell: a bar, then the piece in three columns. A promoted piece
/// fills the first two; any other stands in the middle.
pub open spec fn cell_text(p: Piece) -> Seq<char> {
    if piece_text(p).len() == 2 {
        seq!['\u{2502}'] + piece_text(p) + seq![' ']
    } else {
        seq!['\u{2502}', ' '] + piece_text(p) + seq![' ']
    }
}

/// The first `n` cells of the rank `rank`, in ascending order of file.
pub open spec fn row_cells(v: PositionView, rank: int, n: int) -> Seq<char>
    decreases n,
{
    if n <= 0 {
        Seq::empty()
    } else {
        row_cells(v, rank, n - 1) + cell_text(v.mailbox[9 * rank + n - 1])
    }
}

/// The row of the rank `rank` with the rule below it; the lowest rank has
/// no rule below.
pub open spec fn row_text(v: PositionView, rank: int) -> Seq<char> {
    let cells = row_cells(v, rank, 9) + seq!['\u{2502}', '\n'];
    if rank == 0 {
        cells
    } else {
        cells + rule_line('\u{251c}', '\u{253c}', '\u{2524}')
    }
}

/// The rows of the `n` highest ranks, the highest first.
pub open spec fn rows_text(v: PositionView, n: int) -> Seq<char>
    decreases n,
{
    if n <= 0 {
        Seq::empty()
    } else {
        rows_text(v, n - 1) + row_text(v, 9 - n)
    }
}

/// The grid: the top rule, the nine rows, the bottom rule.
pub open spec fn grid_text(v: PositionView) -> Seq<char> {
    rule_line('\u{250c}', '\u{252c}', '\u{2510}') + rows_text(v, 9) + rule_line(
        '\u{2514}',
        '\u{2534}',
        '\u{2518}',
    )
}

/// The lines below the grid: an empty line, the side to move, the hand of
/// the first side in upper case, the hand of the second side in lower case,
/// and the ply count.
pub open spec fn status_text(v: PositionView, stm: int, ply: int) -> Seq<char> {
    seq!['\n'] + "stm: "@ + (if stm == 0 {
        "sente"@
    } else {
        "gote"@
    }) + seq!['\n'] + "sente hand: "@ + hand_text(v.hands[0], 0) + seq!['\n'] + "gote hand: "@
        + hand_text(v.hands[1], 1) + seq!['\n'] + "ply count: "@ + signed_decimal(ply) + seq!['\n']
}

/// The whole picture.
pub open spec fn board_text(v: PositionView, stm: int, ply: int) -> Seq<char> {
    grid_text(v) + status_text(v, stm, ply)
}

/// Appends a ruled line.
fn write_rule(out: &mut Vec<char>, left: char, joint: char, right: char)
    ensures
        final(out)@ == old(out)@ + rule_line(left, joint, right),
{
    let ghost start = out@;
    out.push(left);
    let mut k: u8 = 0;
    while k < 8
        invariant
            k <= 8,
            out@ == start + seq![left] + rule_cells(joint, k as int),
        decreases 8 - k,
    {
        let ghost before = out@;
        out.push('\u{2500}');
        out.push('\u{2500}');
        out.push('\u{2500}');
        out.push(joint);
        k += 1;
        proof {
            assert(out@ =~= before + seq!['\u{2500}', '\u{2500}', '\u{2500}', joint]);
            assert(out@ =~= start + seq![left] + rule_cells(joint, k as int));
        }
    }
    let ghost before = out@;
    out.push('\u{2500}');
    out.push('\u{2500}');
    out.push('\u{2500}');
    out.push(right);
    out.push('\n');
    proof {
        assert(out@ =~= before + seq!['\u{2500}', '\u{2500}', '\u{2500}', right, '\n']);
        assert(out@ =~= start + rule_line(left, joint, right));
    }
}

/// Appends one cell.
fn write_cell(out: &mut Vec<char>, p: Piece)
    ensures
        final(out)@ == old(out)@ + cell_text(p),
{
    let ghost start = out@;
    out.push('\u{2502}');
    if !(p.is_piece() && p.is_promoted()) {
        out.push(' ');
    }
    p.write_text(out);
    out.push(' ');
    proof {
        assert(out@ =~= start + cell_text(p));
    }
}

/// Appends the grid of a position.
pub fn write_grid(out: &mut Vec<char>, state: &Position)
    ensures
        final(out)@ == old(out)@ + grid_text(state@),
{
    let ghost start = out@;
    let ghost v = state@;
    write_rule(out, '\u{250c}', '\u{252c}', '\u{2510}');
    let ghost top = out@;
    let mut done: u8 = 0;
    while done < 9
        invariant
            done <= 9,
            v == state@,
            out@ == top + rows_text(v, done as int),
        decreases 9 - done,
    {
        let rank: u8 = 8 - done;
        let ghost row_start = out@;
        let mut file: u8 = 0;
        while file < 9
            invariant
                file <= 9,
                rank < 9,
                v == state@,
                out@ == row_start + row_cells(v, rank as int, file as int),
            decreases 9 - file,
        {
            let ghost before = out@;
            let p = state.piece_on_square(Square(rank * 9 + file));
            write_cell(out, p);
            file += 1;
            proof {
                assert(out@ =~= row_start + row_cells(v, rank as int, file as int));
            }
        }
        let ghost cells = out@;
        out.push('\u{2502}');
        out.push('\n');
        proof {
            assert(out@ =~= cells + seq!['\u{2502}', '\n']);
        }
        if rank != 0 {
            write_rule(out, '\u{251c}', '\u{253c}', '\u{2524}');
        }
        done += 1;
        proof {
            assert(out@ =~= row_start + row_text(v, rank as int));
            assert(out@ =~= top + rows_text(v, done as int));
        }
    }
    write_rule(out, '\u{2514}', '\u{2534}', '\u{2518}');
    proof {
        assert(out@ =~= start + grid_text(v));
    }
}

/// Appends the lines that stand below the grid.
pub fn write_status(out: &mut Vec<char>, state: &Position, stm: u8, ply: i16)
    requires
        stm < 2,
    ensures
        final(out)@ == old(out)@ + status_text(state@, stm as int, ply as int),
{
    let ghost start = out@;
    out.push('\n');
    write_str(out, "stm: ");
    if stm == 0 {
        write_str(out, "sente");
    } else {
        write_str(out, "gote");
    }
    out.push('\n');
    write_str(out, "sente hand: ");
    state.hand(0).write_text(out, 0);
    out.push('\n');
    write_str(out, "gote hand: ");
    state.hand(1).write_text(out, 1);
    out.push('\n');
    write_str(out, "ply count: ");
    write_signed_decimal(out, ply as i32);
    out.push('\n');
    proof {
        assert(out@ =~= start + status_text(state@, stm as int, ply as int));
    }
}

/// The picture of a position with its side to move and ply count.
pub fn render(state: &Position, stm: u8, ply: i16) -> (r: Vec<char>)
    requires
        stm < 2,
    ensures
        r@ == board_text(state@, stm as int, ply as int),
{
    let mut out: Vec<char> = Vec::new();
    write_grid(&mut out, state);
    write_status(&mut out, state, stm, ply);
    proof {
        assert(out@ =~= board_text(state@, stm as int, ply as int));
    }
    out
}

} // verus!
