//! Where a piece on a given square can go, category by category.
//!
//! Every function here answers for one piece on an otherwise arbitrary
//! board: the squares it reaches, whoever stands on them. Leaving out the
//! squares of the mover's own pieces is the caller's part.

use crate::types::bitboard::board_squares;
use crate::types::bitboard::lemma_board_mask;
use crate::types::bitboard::Bitboard;
use crate::types::bitboard::BOARDMASK;
use crate::types::bits::has_bit;
use crate::types::bits::lemma_and;
use crate::types::bits::lemma_shl;
use crate::types::bits::lemma_shr;
use crate::types::piece::is_kind;
use crate::types::piece::BISHOP;
use crate::types::piece::KING;
use crate::types::piece::KNIGHT;
use crate::types::piece::LANCE;
use crate::types::piece::PAWN;
use crate::types::piece::PROMO_BISHOP;
use crate::types::piece::PROMO_ROOK;
use crate::types::piece::ROOK;
use crate::types::piece::SILVER;
use crate::types::square::file_of;
use crate::types::square::in_grid;
use crate::types::square::on_board;
use crate::types::square::rank_of;
use crate::types::square::square_at;
use crate::types::square::Square;
use vstd::prelude::*;

verus! {

/// The change of rank of one step forward: up for the first side, down for the second.
pub open spec fn forward(side: int) -> int {
    if side == 0 {
        1
    } else {
        -1
    }
}

/// How many files `to` lies to the right of `from`.
pub open spec fn delta_file(from: int, to: int) -> int {
    file_of(to) - file_of(from)
}

/// How many ranks `to` lies above `from`.
pub open spec fn delta_rank(from: int, to: int) -> int {
    rank_of(to) - rank_of(from)
}

/// One step in any of the eight directions.
pub open spec fn king_step(df: int, dr: int) -> bool {
    -1 <= df <= 1 && -1 <= dr <= 1 && !(df == 0 && dr == 0)
}

/// One step in any direction but diagonally backward.
pub open spec fn gold_step(df: int, dr: int, side: int) -> bool {
    king_step(df, dr) && !(dr == -forward(side) && df != 0)
}

/// One step forward, straight or diagonally, or diagonally backward.
pub open spec fn silver_step(df: int, dr: int, side: int) -> bool {
    king_step(df, dr) && (dr == forward(side) || (dr == -forward(side) && df != 0))
}

/// Two ranks forward and one file to either side.
pub open spec fn knight_step(df: int, dr: int, side: int) -> bool {
    (df == 1 || df == -1) && dr == 2 * forward(side)
}

/// One step straight forward.
pub open spec fn pawn_step(df: int, dr: int, side: int) -> bool {
    df == 0 && dr == forward(side)
}

/// The squares a king on `from` reaches.
pub open spec fn king_attacks(from: int) -> Set<int> {
    Set::new(|to: int| on_board(to) && king_step(delta_file(from, to), delta_rank(from, to)))
}

/// The squares a gold of `side` on `from` reaches.
pub open spec fn gold_attacks(from: int, side: int) -> Set<int> {
    Set::new(|to: int| on_board(to) && gold_step(delta_file(from, to), delta_rank(from, to), side))
}

/// The squares a silver of `side` on `from` reaches.
pub open spec fn silver_attacks(from: int, side: int) -> Set<int> {
    Set::new(
        |to: int| on_board(to) && silver_step(delta_file(from, to), delta_rank(from, to), side),
    )
}

/// The squares a knight of `side` on `from` reaches.
pub open spec fn knight_attacks(from: int, side: int) -> Set<int> {
    Set::new(
        |to: int| on_board(to) && knight_step(delta_file(from, to), delta_rank(from, to), side),
    )
}

/// The square a pawn of `side` on `from` reaches, if it is on the board.
pub open spec fn pawn_attacks(from: int, side: int) -> Set<int> {
    Set::new(|to: int| on_board(to) && pawn_step(delta_file(from, to), delta_rank(from, to), side))
}

/// `k` steps in the direction of sign `d`.
pub open spec fn scaled(d: int, k: int) -> int {
    if d > 0 {
        k
    } else if d < 0 {
        -k
    } else {
        0
    }
}

/// The file reached after `k` steps from `from` in the file direction `df`.
pub open spec fn ray_file(from: int, df: int, k: int) -> int {
    file_of(from) + scaled(df, k)
}

/// The rank reached after `k` steps from `from` in the rank direction `dr`.
pub open spec fn ray_rank(from: int, dr: int, k: int) -> int {
    rank_of(from) + scaled(dr, k)
}

/// Whether `k` steps from `from` in the direction `(df, dr)` stay on the board.
pub open spec fn ray_on_board(from: int, df: int, dr: int, k: int) -> bool {
    in_grid(ray_file(from, df, k), ray_rank(from, dr, k))
}

/// The square `k` steps from `from` in the direction `(df, dr)`.
pub open spec fn ray_square(from: int, df: int, dr: int, k: int) -> int {
    square_at(ray_file(from, df, k), ray_rank(from, dr, k))
}

/// Whether the first `k - 1` squares of the ray are all unoccupied.
pub open spec fn ray_clear(from: int, df: int, dr: int, occ: Set<int>, k: int) -> bool {
    forall|j: int| 1 <= j < k ==> !occ.contains(#[trigger] ray_square(from, df, dr, j))
}

/// Whether a slider on `from` reaches `to` along the direction `(df, dr)`:
/// `to` lies on the ray, on the board, and no square before it is occupied.
/// The first occupied square of a ray is reached; the squares behind it are not.
pub open spec fn ray_reaches(from: int, df: int, dr: int, occ: Set<int>, to: int) -> bool {
    exists|k: int|
        1 <= k && #[trigger] ray_on_board(from, df, dr, k) && ray_square(from, df, dr, k) == to
            && ray_clear(from, df, dr, occ, k)
}

/// The squares a slider on `from` reaches along the direction `(df, dr)`.
pub open spec fn ray_attacks(from: int, df: int, dr: int, occ: Set<int>) -> Set<int> {
    Set::new(|to: int| ray_reaches(from, df, dr, occ, to))
}

/// The squares a lance of `side` on `from` reaches: straight forward, up to
/// and with the first occupied square.
pub open spec fn lance_attacks(from: int, occ: Set<int>, side: int) -> Set<int> {
    ray_attacks(from, 0, forward(side), occ)
}

/// The squares a rook on `from` reaches: along its file and its rank, each
/// way up to and with the first occupied square.
pub open spec fn rook_attacks(from: int, occ: Set<int>) -> Set<int> {
    ray_attacks(from, 0, 1, occ).union(ray_attacks(from, 0, -1, occ)).union(
        ray_attacks(from, 1, 0, occ),
    ).union(ray_attacks(from, -1, 0, occ))
}

/// The squares a bishop on `from` reaches: along its diagonals, each way up
/// to and with the first occupied square.
pub open spec fn bishop_attacks(from: int, occ: Set<int>) -> Set<int> {
    ray_attacks(from, 1, 1, occ).union(ray_attacks(from, 1, -1, occ)).union(
        ray_attacks(from, -1, 1, occ),
    ).union(ray_attacks(from, -1, -1, occ))
}

/// The squares a piece of category `kind` and side `side` on `from` reaches
/// when the squares of `occ` are occupied. The four categories that promote
/// to the gold's movement move as a gold; a promoted bishop or rook adds the
/// king's step to its slides.
pub open spec fn attacks(kind: int, side: int, from: int, occ: Set<int>) -> Set<int> {
    if kind == 0 {
        pawn_attacks(from, side)
    } else if kind == 1 {
        lance_attacks(from, occ, side)
    } else if kind == 2 {
        knight_attacks(from, side)
    } else if kind == 3 {
        silver_attacks(from, side)
    } else if kind == 4 {
        bishop_attacks(from, occ)
    } else if kind == 5 {
        rook_attacks(from, occ)
    } else if kind == 7 {
        king_attacks(from)
    } else if kind == 12 {
        bishop_attacks(from, occ).union(king_attacks(from))
    } else if kind == 13 {
        rook_attacks(from, occ).union(king_attacks(from))
    } else if is_kind(kind) {
        gold_attacks(from, side)
    } else {
        Set::empty()
    }
}

/// The squares that the pawns of `pawns` reach together: the squares of the
/// board one step forward of a member.
pub open spec fn pawn_targets(pawns: Set<int>, side: int) -> Set<int> {
    Set::new(|to: int| on_board(to) && pawns.contains(to - 9 * forward(side)))
}

/// What a piece reaches lies on the board, and never is the square it stands on.
pub proof fn lemma_attacks_on_board(kind: int, side: int, from: int, occ: Set<int>, to: int)
    requires
        on_board(from),
        side == 0 || side == 1,
        attacks(kind, side, from, occ).contains(to),
    ensures
        on_board(to),
        to != from,
{
    let rays = ray_reaches(from, 0, 1, occ, to) || ray_reaches(from, 0, -1, occ, to)
        || ray_reaches(from, 1, 0, occ, to) || ray_reaches(from, -1, 0, occ, to) || ray_reaches(
        from,
        1,
        1,
        occ,
        to,
    ) || ray_reaches(from, 1, -1, occ, to) || ray_reaches(from, -1, 1, occ, to) || ray_reaches(
        from,
        -1,
        -1,
        occ,
        to,
    );
    if rays {
        lemma_ray_on_board(from, 0, 1, occ, to);
        lemma_ray_on_board(from, 0, -1, occ, to);
        lemma_ray_on_board(from, 1, 0, occ, to);
        lemma_ray_on_board(from, -1, 0, occ, to);
        lemma_ray_on_board(from, 1, 1, occ, to);
        lemma_ray_on_board(from, 1, -1, occ, to);
        lemma_ray_on_board(from, -1, 1, occ, to);
        lemma_ray_on_board(from, -1, -1, occ, to);
    }
}

proof fn lemma_ray_on_board(from: int, df: int, dr: int, occ: Set<int>, to: int)
    requires
        on_board(from),
        -1 <= df <= 1,
        -1 <= dr <= 1,
        !(df == 0 && dr == 0),
    ensures
        ray_reaches(from, df, dr, occ, to) ==> on_board(to) && to != from,
{
    if ray_reaches(from, df, dr, occ, to) {
        let k = choose|k: int|
            1 <= k && #[trigger] ray_on_board(from, df, dr, k) && ray_square(from, df, dr, k) == to
                && ray_clear(from, df, dr, occ, k);
        assert(file_of(to) == ray_file(from, df, k));
        assert(rank_of(to) == ray_rank(from, dr, k));
    }
}

/// The bulk pawn rule and the rule for one pawn agree: a square is one
/// step forward of a member of `pawns` exactly if the pawn rule, asked of
/// some member, gives that square.
pub proof fn lemma_setwise_pawns_is_per_square(pawns: Set<int>, side: int, to: int)
    requires
        side == 0 || side == 1,
        pawns.subset_of(board_squares()),
    ensures
        pawn_targets(pawns, side).contains(to) <==> exists|from: int|
            pawns.contains(from) && #[trigger] pawn_attacks(from, side).contains(to),
{
    if pawn_targets(pawns, side).contains(to) {
        let from = to - 9 * forward(side);
        assert(board_squares().contains(from));
        assert(pawns.contains(from) && pawn_attacks(from, side).contains(to));
    }
    if exists|from: int| pawns.contains(from) && #[trigger] pawn_attacks(from, side).contains(to) {
        let from = choose|from: int|
            pawns.contains(from) && #[trigger] pawn_attacks(from, side).contains(to);
        assert(board_squares().contains(from));
        assert(from == to - 9 * forward(side));
    }
}

/// Adds to `acc` the square that lies `df` files and `dr` ranks from `sq`,
/// if that square is on the board.
fn add_step(acc: Bitboard, sq: Square, df: i8, dr: i8) -> (r: Bitboard)
    requires
        sq.valid(),
        -2 <= df <= 2,
        -2 <= dr <= 2,
    ensures
        forall|to: int|
            r@.contains(to) <==> acc@.contains(to) || (on_board(to) && delta_file(sq.index(), to)
                == df && delta_rank(sq.index(), to) == dr),
{
    let f: i8 = sq.file() as i8 + df;
    let r: i8 = sq.rank() as i8 + dr;
    if 0 <= f && f < 9 && 0 <= r && r < 9 {
        let target = Square::new(f as u8, r as u8);
        acc.const_or(Bitboard::from_square(target))
    } else {
        acc
    }
}

/// The forward step of a side as a machine integer.
fn forward_of(stm: u8) -> (r: i8)
    requires
        stm < 2,
    ensures
        r == forward(stm as int),
{
    if stm == 0 {
        1
    } else {
        -1
    }
}

/// The squares a king on `sq` reaches.
pub fn get_king_attacks(sq: Square) -> (r: Bitboard)
    requires
        sq.valid(),
    ensures
        r@ == king_attacks(sq.index()),
{
    let mut acc = Bitboard::empty();
    acc = add_step(acc, sq, -1, -1);
    acc = add_step(acc, sq, 0, -1);
    acc = add_step(acc, sq, 1, -1);
    acc = add_step(acc, sq, -1, 0);
    acc = add_step(acc, sq, 1, 0);
    acc = add_step(acc, sq, -1, 1);
    acc = add_step(acc, sq, 0, 1);
    acc = add_step(acc, sq, 1, 1);
    proof {
        assert(acc@ =~= king_attacks(sq.index()));
    }
    acc
}

/// The squares a gold of the side `stm` on `sq` reaches.
pub fn get_gold_attacks(sq: Square, stm: u8) -> (r: Bitboard)
    requires
        sq.valid(),
        stm < 2,
    ensures
        r@ == gold_attacks(sq.index(), stm as int),
{
    let fwd = forward_of(stm);
    let mut acc = Bitboard::empty();
    acc = add_step(acc, sq, -1, fwd);
    acc = add_step(acc, sq, 0, fwd);
    acc = add_step(acc, sq, 1, fwd);
    acc = add_step(acc, sq, -1, 0);
    acc = add_step(acc, sq, 1, 0);
    acc = add_step(acc, sq, 0, -fwd);
    proof {
        if stm == 0 {
            assert(acc@ =~= gold_attacks(sq.index(), stm as int));
        } else {
            assert(acc@ =~= gold_attacks(sq.index(), stm as int));
        }
    }
    acc
}

/// The squares a silver of the side `stm` on `sq` reaches.
pub fn get_silver_attacks(sq: Square, stm: u8) -> (r: Bitboard)
    requires
        sq.valid(),
        stm < 2,
    ensures
        r@ == silver_attacks(sq.index(), stm as int),
{
    let fwd = forward_of(stm);
    let mut acc = Bitboard::empty();
    acc = add_step(acc, sq, -1, fwd);
    acc = add_step(acc, sq, 0, fwd);
    acc = add_step(acc, sq, 1, fwd);
    acc = add_step(acc, sq, -1, -fwd);
    acc = add_step(acc, sq, 1, -fwd);
    proof {
        if stm == 0 {
            assert(acc@ =~= silver_attacks(sq.index(), stm as int));
        } else {
            assert(acc@ =~= silver_attacks(sq.index(), stm as int));
        }
    }
    acc
}

/// The squares a knight of the side `stm` on `sq` reaches.
pub fn get_knight_attacks(sq: Square, stm: u8) -> (r: Bitboard)
    requires
        sq.valid(),
        stm < 2,
    ensures
        r@ == knight_attacks(sq.index(), stm as int),
{
    let fwd = forward_of(stm);
    let mut acc = Bitboard::empty();
    acc = add_step(acc, sq, -1, 2 * fwd);
    acc = add_step(acc, sq, 1, 2 * fwd);
    proof {
        if stm == 0 {
            assert(acc@ =~= knight_attacks(sq.index(), stm as int));
        } else {
            assert(acc@ =~= knight_attacks(sq.index(), stm as int));
        }
    }
    acc
}

/// The square a pawn of the side `stm` on `sq` reaches, if it is on the board.
pub fn get_pawn_attacks(sq: Square, stm: u8) -> (r: Bitboard)
    requires
        sq.valid(),
        stm < 2,
    ensures
        r@ == pawn_attacks(sq.index(), stm as int),
{
    let fwd = forward_of(stm);
    let acc = add_step(Bitboard::empty(), sq, 0, fwd);
    proof {
        assert(acc@ =~= pawn_attacks(sq.index(), stm as int));
    }
    acc
}

/// Once a ray has left the board it stays outside.
proof fn lemma_ray_leaves(from: int, df: int, dr: int, k: int, later: int)
    requires
        on_board(from),
        -1 <= df <= 1,
        -1 <= dr <= 1,
        !(df == 0 && dr == 0),
        1 <= k <= later,
        !ray_on_board(from, df, dr, k),
    ensures
        !ray_on_board(from, df, dr, later),
{
}

/// The squares a slider on `sq` reaches along one direction.
fn ray(sq: Square, occ: Bitboard, df: i8, dr: i8) -> (r: Bitboard)
    requires
        sq.valid(),
        -1 <= df <= 1,
        -1 <= dr <= 1,
        !(df == 0 && dr == 0),
    ensures
        r@ == ray_attacks(sq.index(), df as int, dr as int, occ@),
{
    let ghost from = sq.index();
    let ghost d = (df as int, dr as int);
    let mut f: i8 = sq.file() as i8 + df;
    let mut r: i8 = sq.rank() as i8 + dr;
    let mut acc = Bitboard::empty();
    let mut k: u8 = 1;
    while 0 <= f && f < 9 && 0 <= r && r < 9
        invariant
            on_board(from),
            from == sq.index(),
            d == (df as int, dr as int),
            -1 <= df <= 1,
            -1 <= dr <= 1,
            !(df == 0 && dr == 0),
            1 <= k <= 9,
            f == ray_file(from, d.0, k as int),
            r == ray_rank(from, d.1, k as int),
            forall|j: int| 1 <= j < k ==> #[trigger] ray_on_board(from, d.0, d.1, j),
            ray_clear(from, d.0, d.1, occ@, k as int),
            forall|to: int|
                acc@.contains(to) <==> exists|j: int|
                    1 <= j < k && #[trigger] ray_square(from, d.0, d.1, j) == to,
        decreases 9 - k,
    {
        let target = Square::new(f as u8, r as u8);
        let ghost before = acc@;
        acc = acc.const_or(Bitboard::from_square(target));
        proof {
            assert(target.index() == ray_square(from, d.0, d.1, k as int));
            assert(ray_on_board(from, d.0, d.1, k as int));
            assert forall|to: int|
                acc@.contains(to) <==> exists|j: int|
                    1 <= j < k + 1 && #[trigger] ray_square(from, d.0, d.1, j) == to by {
                if before.contains(to) {
                    let j = choose|j: int|
                        1 <= j < k && #[trigger] ray_square(from, d.0, d.1, j) == to;
                    assert(1 <= j < k + 1 && ray_square(from, d.0, d.1, j) == to);
                }
                if exists|j: int| 1 <= j < k + 1 && #[trigger] ray_square(from, d.0, d.1, j) == to {
                    let j = choose|j: int|
                        1 <= j < k + 1 && #[trigger] ray_square(from, d.0, d.1, j) == to;
                    if j < k {
                        assert(before.contains(to));
                    }
                }
            }
        }
        if occ.contains(target) {
            proof {
                assert forall|to: int|
                    acc@.contains(to) == ray_attacks(from, d.0, d.1, occ@).contains(to) by {
                    if acc@.contains(to) {
                        let j = choose|j: int|
                            1 <= j < k + 1 && #[trigger] ray_square(from, d.0, d.1, j) == to;
                        assert(ray_on_board(from, d.0, d.1, j));
                        assert(ray_clear(from, d.0, d.1, occ@, j));
                    }
                    if ray_reaches(from, d.0, d.1, occ@, to) {
                        let j = choose|j: int|
                            1 <= j && #[trigger] ray_on_board(from, d.0, d.1, j) && ray_square(
                                from,
                                d.0,
                                d.1,
                                j,
                            ) == to && ray_clear(from, d.0, d.1, occ@, j);
                        if j > k {
                            assert(!occ@.contains(ray_square(from, d.0, d.1, k as int)));
                        }
                        assert(1 <= j < k + 1 && ray_square(from, d.0, d.1, j) == to);
                    }
                }
                assert(acc@ =~= ray_attacks(from, d.0, d.1, occ@));
            }
            return acc;
        }
        f = f + df;
        r = r + dr;
        k = k + 1;
    }
    proof {
        assert(!ray_on_board(from, d.0, d.1, k as int));
        assert forall|to: int|
            acc@.contains(to) == ray_attacks(from, d.0, d.1, occ@).contains(to) by {
            if acc@.contains(to) {
                let j = choose|j: int| 1 <= j < k && #[trigger] ray_square(from, d.0, d.1, j) == to;
                assert(ray_on_board(from, d.0, d.1, j));
                assert(ray_clear(from, d.0, d.1, occ@, j));
            }
            if ray_reaches(from, d.0, d.1, occ@, to) {
                let j = choose|j: int|
                    1 <= j && #[trigger] ray_on_board(from, d.0, d.1, j) && ray_square(
                        from,
                        d.0,
                        d.1,
                        j,
                    ) == to && ray_clear(from, d.0, d.1, occ@, j);
                if j >= k {
                    lemma_ray_leaves(from, d.0, d.1, k as int, j);
                }
                assert(1 <= j < k && ray_square(from, d.0, d.1, j) == to);
            }
        }
        assert(acc@ =~= ray_attacks(from, d.0, d.1, occ@));
    }
    acc
}

/// The squares a lance of the side `stm` on `sq` reaches when the squares
/// of `occ` are occupied.
pub fn get_lance_attacks(sq: Square, occ: Bitboard, stm: u8) -> (r: Bitboard)
    requires
        sq.valid(),
        stm < 2,
    ensures
        r@ == lance_attacks(sq.index(), occ@, stm as int),
{
    ray(sq, occ, 0, forward_of(stm))
}

/// The squares a rook on `sq` reaches when the squares of `occ` are occupied.
pub fn get_rook_attacks(sq: Square, occ: Bitboard) -> (r: Bitboard)
    requires
        sq.valid(),
    ensures
        r@ == rook_attacks(sq.index(), occ@),
{
    let up = ray(sq, occ, 0, 1);
    let down = ray(sq, occ, 0, -1);
    let right = ray(sq, occ, 1, 0);
    let left = ray(sq, occ, -1, 0);
    up.const_or(down).const_or(right).const_or(left)
}

/// The squares a bishop on `sq` reaches when the squares of `occ` are occupied.
pub fn get_bishop_attacks(sq: Square, occ: Bitboard) -> (r: Bitboard)
    requires
        sq.valid(),
    ensures
        r@ == bishop_attacks(sq.index(), occ@),
{
    let a = ray(sq, occ, 1, 1);
    let b = ray(sq, occ, 1, -1);
    let c = ray(sq, occ, -1, 1);
    let d = ray(sq, occ, -1, -1);
    a.const_or(b).const_or(c).const_or(d)
}

/// The squares a piece of the category `kind` and the side `stm` on `sq`
/// reaches when the squares of `occ` are occupied.
pub fn get_attacks(kind: u8, sq: Square, occ: Bitboard, stm: u8) -> (r: Bitboard)
    requires
        sq.valid(),
        stm < 2,
        is_kind(kind as int),
    ensures
        r@ == attacks(kind as int, stm as int, sq.index(), occ@),
{
    if kind == PAWN {
        get_pawn_attacks(sq, stm)
    } else if kind == LANCE {
        get_lance_attacks(sq, occ, stm)
    } else if kind == KNIGHT {
        get_knight_attacks(sq, stm)
    } else if kind == SILVER {
        get_silver_attacks(sq, stm)
    } else if kind == BISHOP {
        get_bishop_attacks(sq, occ)
    } else if kind == ROOK {
        get_rook_attacks(sq, occ)
    } else if kind == KING {
        get_king_attacks(sq)
    } else if kind == PROMO_BISHOP {
        get_bishop_attacks(sq, occ).const_or(get_king_attacks(sq))
    } else if kind == PROMO_ROOK {
        get_rook_attacks(sq, occ).const_or(get_king_attacks(sq))
    } else {
        get_gold_attacks(sq, stm)
    }
}

/// The squares that the pawns of `pawns`, all of the side `stm`, reach
/// together: one shift of the whole set by a rank, kept to the board.
pub fn setwise_pawns(pawns: Bitboard, stm: u8) -> (r: Bitboard)
    requires
        stm < 2,
    ensures
        r@ == pawn_targets(pawns@, stm as int),
{
    let shifted: u128 = if stm == 0 {
        pawns.0 << 9u8
    } else {
        pawns.0 >> 9u8
    };
    let r = Bitboard(shifted & BOARDMASK);
    proof {
        lemma_shl(pawns.0, 9);
        lemma_shr(pawns.0, 9);
        lemma_and(shifted, BOARDMASK);
        lemma_board_mask();
        assert forall|to: int| r@.contains(to) == pawn_targets(pawns@, stm as int).contains(to) by {
            assert(r@.contains(to) == (has_bit(shifted, to) && on_board(to)));
            if stm == 0 {
                assert(has_bit(pawns.0 << 9u128, to) <==> 9 <= to < 128 && has_bit(pawns.0, to - 9));
            } else {
                assert(has_bit(pawns.0 >> 9u128, to) <==> 0 <= to && has_bit(pawns.0, to + 9));
            }
        }
        assert(r@ =~= pawn_targets(pawns@, stm as int));
    }
    r
}

} // verus!
