//! Enumerating the actions of the side to move.
//!
//! The moves of every piece but the pawns are found piece by piece; the
//! moves of the pawns are found for all pawns at once; the drops are found
//! category by category. Each action is written to the list once.

use crate::board::Position;
use crate::movegen::forward;
use crate::movegen::get_attacks;
use crate::movegen::pawn_targets;
use crate::movegen::setwise_pawns;
use crate::position::PositionView;
use crate::rules::drop_allowed;
use crate::rules::in_promotion_zone;
use crate::rules::is_action;
use crate::rules::is_drop;
use crate::rules::is_move;
use crate::rules::may_promote;
use crate::rules::on_last_rank;
use crate::rules::on_last_two_ranks;
use crate::types::action::Action;
use crate::types::action::Actionlist;
use crate::types::bitboard::board_squares;
use crate::types::bitboard::filled_down;
use crate::types::bitboard::filled_up;
use crate::types::bitboard::Bitboard;
use crate::types::piece::is_droppable;
use crate::types::piece::Piece;
use crate::types::piece::GOLD;
use crate::types::piece::KNIGHT;
use crate::types::piece::LANCE;
use crate::types::piece::PAWN;
use crate::types::square::file_of;
use crate::types::square::on_board;
use crate::types::square::Square;
use vstd::prelude::*;

verus! {

/// Whether `a` is a move from `from` to a square of `targets`; a promoting
/// one only if `promotable` is set and the move starts or ends in the
/// promotion zone of `stm`.
pub open spec fn is_move_from(
    a: Action,
    from: Square,
    targets: Set<int>,
    promotable: bool,
    stm: int,
) -> bool {
    a matches Action::Move { from: f, to, promote } && f == from && targets.contains(to.index())
        && (promote ==> promotable && (in_promotion_zone(stm, from.index()) || in_promotion_zone(
        stm,
        to.index(),
    )))
}

/// Whether `a` is the move of a pawn of `stm` one step forward to a square
/// of `targets`; a promoting one only if the move starts or ends in the
/// promotion zone.
pub open spec fn is_pawn_step(a: Action, targets: Set<int>, stm: int) -> bool {
    a matches Action::Move { from, to, promote } && targets.contains(to.index()) && from.index()
        == to.index() - 9 * forward(stm) && (promote ==> may_promote(
        0,
        stm,
        from.index(),
        to.index(),
    ))
}

/// Whether `a` is a drop of `piece` on a square of `squares`.
pub open spec fn is_drop_of(a: Action, piece: Piece, squares: Set<int>) -> bool {
    a matches Action::Drop { piece: p, to } && p == piece && squares.contains(to.index())
}

/// Whether `a` is a move of the side `stm` made by a piece other than a pawn.
pub open spec fn is_piece_move(v: PositionView, stm: int, a: Action) -> bool {
    a matches Action::Move { from, to, promote } && is_move(
        v,
        stm,
        from.index(),
        to.index(),
        promote,
    ) && v.piece_at(from.index()).kind != 0
}

/// Whether `a` is a move of the side `stm`.
pub open spec fn is_any_move(v: PositionView, stm: int, a: Action) -> bool {
    a matches Action::Move { from, to, promote } && is_move(
        v,
        stm,
        from.index(),
        to.index(),
        promote,
    )
}

/// Whether `a` is a drop by the side `stm` of a category below `limit`.
pub open spec fn is_drop_below(v: PositionView, stm: int, a: Action, limit: int) -> bool {
    a matches Action::Drop { piece, to } && is_drop(v, stm, piece, to.index()) && piece.kind < limit
}

/// The squares of the board that share their file with a member of `pawns`
/// are the squares that the file fill of `pawns` gives.
proof fn lemma_file_fill(pawns: Set<int>, s: int)
    requires
        pawns.subset_of(board_squares()),
        on_board(s),
    ensures
        filled_up(pawns).union(filled_down(pawns)).contains(s) <==> exists|t: int| #[trigger]
            pawns.contains(t) && file_of(t) == file_of(s),
{
    if filled_up(pawns).contains(s) {
        let t = choose|t: int| #[trigger] pawns.contains(t) && t <= s && (s - t) % 9 == 0;
        assert(board_squares().contains(t));
        assert(pawns.contains(t) && file_of(t) == file_of(s));
    }
    if filled_down(pawns).contains(s) {
        let t = choose|t: int| #[trigger] pawns.contains(t) && s <= t && (t - s) % 9 == 0;
        assert(board_squares().contains(t));
        assert(pawns.contains(t) && file_of(t) == file_of(s));
    }
    if exists|t: int| #[trigger] pawns.contains(t) && file_of(t) == file_of(s) {
        let t = choose|t: int| #[trigger] pawns.contains(t) && file_of(t) == file_of(s);
        assert(board_squares().contains(t));
        if t <= s {
            assert(pawns.contains(t) && t <= s && (s - t) % 9 == 0);
        } else {
            assert(pawns.contains(t) && s <= t && (t - s) % 9 == 0);
        }
    }
}

/// Whether `sq` lies in the promotion zone of the side `stm`.
pub fn in_zone(stm: u8, sq: Square) -> (r: bool)
    ensures
        r == in_promotion_zone(stm as int, sq.index()),
{
    if stm == 0 {
        sq.0 >= 54
    } else {
        sq.0 < 27
    }
}

/// Appends an action that the list does not hold yet.
fn push_new(list: &mut Actionlist, a: Action)
    requires
        old(list)@.no_duplicates(),
        !old(list)@.contains(a),
    ensures
        final(list)@ == old(list)@.push(a),
        final(list)@.no_duplicates(),
        forall|b: Action| final(list)@.contains(b) <==> old(list)@.contains(b) || b == a,
{
    list.push(a);
    proof {
        let before = old(list)@;
        let after = list@;
        assert forall|b: Action| after.contains(b) <==> before.contains(b) || b == a by {
            if before.contains(b) {
                let i = choose|i: int| 0 <= i < before.len() && before[i] == b;
                assert(after[i] == b);
            }
            if b == a {
                assert(after[before.len() as int] == a);
            }
            if after.contains(b) {
                let i = choose|i: int| 0 <= i < after.len() && after[i] == b;
                if i < before.len() {
                    assert(before[i] == b);
                }
            }
        }
        assert forall|i: int, j: int| 0 <= i < after.len() && 0 <= j < after.len() && i != j implies after[i]
            != after[j] by {
            if i < before.len() && j < before.len() {
                assert(before[i] != before[j]);
            } else if i < before.len() {
                assert(before[i] == after[i]);
            } else {
                assert(before[j] == after[j]);
            }
        }
    }
}

/// Appends the moves from `from` to each square of `targets`, lowest square
/// first: the promoting move, where there is one, then the plain move.
pub fn push_moves(
    list: &mut Actionlist,
    from: Square,
    targets: Bitboard,
    promotable: bool,
    stm: u8,
)
    requires
        stm < 2,
        old(list)@.no_duplicates(),
        forall|a: Action|
            old(list)@.contains(a) ==> !(a matches Action::Move { from: f, .. } && f == from),
    ensures
        final(list)@.no_duplicates(),
        forall|a: Action|
            final(list)@.contains(a) <==> old(list)@.contains(a) || is_move_from(
                a,
                from,
                targets@,
                promotable,
                stm as int,
            ),
{
    let mut rest = targets;
    while !rest.is_empty()
        invariant
            stm < 2,
            rest@.subset_of(targets@),
            list@.no_duplicates(),
            forall|a: Action|
                list@.contains(a) <==> old(list)@.contains(a) || (is_move_from(
                    a,
                    from,
                    targets@,
                    promotable,
                    stm as int,
                ) && !rest@.contains(a.target().index())),
            forall|a: Action|
                old(list)@.contains(a) ==> !(a matches Action::Move { from: f, .. } && f == from),
        decreases rest.0,
    {
        let ghost before = rest@;
        let ghost listed = list@;
        let to = Square(rest.pop_lsb());
        assert(before.contains(to.index()));
        let promo = Action::new_move(from, to, true);
        let plain = Action::new_move(from, to, false);
        if promotable && (in_zone(stm, from) || in_zone(stm, to)) {
            push_new(list, promo);
        }
        push_new(list, plain);
        proof {
            assert forall|a: Action|
                list@.contains(a) <==> old(list)@.contains(a) || (is_move_from(
                    a,
                    from,
                    targets@,
                    promotable,
                    stm as int,
                ) && !rest@.contains(a.target().index())) by {
                if is_move_from(a, from, targets@, promotable, stm as int) && !rest@.contains(
                    a.target().index(),
                ) {
                    if a.target().index() == to.index() {
                        assert(a.target() == to);
                        assert(a == promo || a == plain);
                    } else {
                        assert(!before.contains(a.target().index()));
                        assert(listed.contains(a));
                    }
                }
            }
        }
    }
}

/// Appends the pawn moves to each square of `targets`, lowest square first:
/// the origin of a move lies one step behind its target; the promoting move,
/// where there is one, comes before the plain move.
pub fn push_pawn_moves(list: &mut Actionlist, targets: Bitboard, stm: u8)
    requires
        stm < 2,
        old(list)@.no_duplicates(),
        forall|t: int| targets@.contains(t) ==> on_board(t) && on_board(t - 9 * forward(stm as int)),
        forall|a: Action| old(list)@.contains(a) ==> !is_pawn_step(a, targets@, stm as int),
    ensures
        final(list)@.no_duplicates(),
        forall|a: Action|
            final(list)@.contains(a) <==> old(list)@.contains(a) || is_pawn_step(
                a,
                targets@,
                stm as int,
            ),
{
    let mut rest = targets;
    while !rest.is_empty()
        invariant
            stm < 2,
            rest@.subset_of(targets@),
            list@.no_duplicates(),
            forall|t: int|
                targets@.contains(t) ==> on_board(t) && on_board(t - 9 * forward(stm as int)),
            forall|a: Action|
                list@.contains(a) <==> old(list)@.contains(a) || (is_pawn_step(
                    a,
                    targets@,
                    stm as int,
                ) && !rest@.contains(a.target().index())),
            forall|a: Action| old(list)@.contains(a) ==> !is_pawn_step(a, targets@, stm as int),
        decreases rest.0,
    {
        let ghost before = rest@;
        let ghost listed = list@;
        let to = Square(rest.pop_lsb());
        assert(before.contains(to.index()));
        assert(targets@.contains(to.index()));
        let from = if stm == 0 {
            Square(to.0 - 9)
        } else {
            Square(to.0 + 9)
        };
        let promo = Action::new_move(from, to, true);
        let plain = Action::new_move(from, to, false);
        if in_zone(stm, from) || in_zone(stm, to) {
            push_new(list, promo);
        }
        push_new(list, plain);
        proof {
            assert forall|a: Action|
                list@.contains(a) <==> old(list)@.contains(a) || (is_pawn_step(
                    a,
                    targets@,
                    stm as int,
                ) && !rest@.contains(a.target().index())) by {
                if is_pawn_step(a, targets@, stm as int) && !rest@.contains(a.target().index()) {
                    if a.target().index() == to.index() {
                        assert(a.target() == to);
                        assert(a.origin()->0.index() == from.index());
                        assert(a.origin()->0 == from);
                        assert(a == promo || a == plain);
                    } else {
                        assert(!before.contains(a.target().index()));
                        assert(listed.contains(a));
                    }
                }
            }
        }
    }
}

/// Appends the drops of `piece` on each square of `squares`, lowest square first.
pub fn push_drops(list: &mut Actionlist, piece: Piece, squares: Bitboard)
    requires
        old(list)@.no_duplicates(),
        forall|a: Action|
            old(list)@.contains(a) ==> !(a matches Action::Drop { piece: p, .. } && p == piece),
    ensures
        final(list)@.no_duplicates(),
        forall|a: Action|
            final(list)@.contains(a) <==> old(list)@.contains(a) || is_drop_of(a, piece, squares@),
{
    let mut rest = squares;
    while !rest.is_empty()
        invariant
            rest@.subset_of(squares@),
            list@.no_duplicates(),
            forall|a: Action|
                list@.contains(a) <==> old(list)@.contains(a) || (is_drop_of(a, piece, squares@)
                    && !rest@.contains(a.target().index())),
            forall|a: Action|
                old(list)@.contains(a) ==> !(a matches Action::Drop { piece: p, .. } && p == piece),
        decreases rest.0,
    {
        let ghost before = rest@;
        let ghost listed = list@;
        let to = Square(rest.pop_lsb());
        assert(before.contains(to.index()));
        let drop = Action::new_drop(piece, to);
        push_new(list, drop);
        proof {
            assert forall|a: Action|
                list@.contains(a) <==> old(list)@.contains(a) || (is_drop_of(a, piece, squares@)
                    && !rest@.contains(a.target().index())) by {
                if is_drop_of(a, piece, squares@) && !rest@.contains(a.target().index()) {
                    if a.target().index() == to.index() {
                        assert(a.target() == to);
                        assert(a == drop);
                    } else {
                        assert(!before.contains(a.target().index()));
                        assert(listed.contains(a));
                    }
                }
            }
        }
    }
}

/// The squares on which the side `stm` may drop a piece of the category `kind`.
pub fn drop_squares(state: &Position, kind: u8, stm: u8) -> (r: Bitboard)
    requires
        state@.wf(),
        stm < 2,
        is_droppable(kind as int),
    ensures
        forall|to: int| r@.contains(to) <==> drop_allowed(state@, stm as int, kind as int, to),
{
    let ghost v = state@;
    let occ = state.occupied();
    let empty = Bitboard::full().without(occ);
    if kind == PAWN {
        let our_pawns = state.sided_piece(PAWN, stm);
        let free_files = Bitboard::full().without(our_pawns.file_fill());
        let free_squares = if stm == 0 {
            free_files.const_shr(9)
        } else {
            free_files.const_shl(9)
        };
        let r = empty.const_and(free_squares);
        proof {
            assert(our_pawns@.subset_of(board_squares())) by {
                assert forall|t: int| our_pawns@.contains(t) implies board_squares().contains(t) by {
                    assert(v.sides[stm as int].contains(t));
                }
            }
            assert forall|to: int| r@.contains(to) <==> drop_allowed(v, stm as int, 0, to) by {
                if on_board(to) {
                    lemma_file_fill(our_pawns@, to);
                    let behind = to + 9 * forward(stm as int);
                    if on_board(behind) {
                        lemma_file_fill(our_pawns@, behind);
                        assert(file_of(behind) == file_of(to));
                    }
                    assert(on_board(behind) <==> !on_last_rank(stm as int, to));
                    assert(free_squares@.contains(to) <==> free_files@.contains(behind));
                }
            }
        }
        r
    } else if kind == KNIGHT {
        let free_squares = if stm == 0 {
            Bitboard::full().const_shr(18)
        } else {
            Bitboard::full().const_shl(18)
        };
        let r = empty.const_and(free_squares);
        proof {
            assert forall|to: int| r@.contains(to) <==> drop_allowed(v, stm as int, 2, to) by {
                if on_board(to) {
                    let behind = to + 18 * forward(stm as int);
                    assert(on_board(behind) <==> !on_last_two_ranks(stm as int, to));
                    assert(free_squares@.contains(to) <==> board_squares().contains(behind));
                }
            }
        }
        r
    } else if kind == LANCE {
        let free_squares = if stm == 0 {
            Bitboard::full().const_shr(9)
        } else {
            Bitboard::full().const_shl(9)
        };
        let r = empty.const_and(free_squares);
        proof {
            assert forall|to: int| r@.contains(to) <==> drop_allowed(v, stm as int, 1, to) by {
                if on_board(to) {
                    let behind = to + 9 * forward(stm as int);
                    assert(on_board(behind) <==> !on_last_rank(stm as int, to));
                    assert(free_squares@.contains(to) <==> board_squares().contains(behind));
                }
            }
        }
        r
    } else {
        empty
    }
}

/// The actions of the side `stm` in the position `state`: every
/// pseudo-legal move and drop, each once.
pub fn generate(state: &Position, stm: u8) -> (r: Actionlist)
    requires
        state@.wf(),
        stm < 2,
    ensures
        r@.no_duplicates(),
        forall|a: Action| r@.contains(a) <==> is_action(state@, stm as int, a),
{
    let ghost v = state@;
    let ghost side = stm as int;
    let mut actions = Actionlist::new();
    let occ = state.occupied();
    let us = state.side_squares(stm);

    let mut rest = us;
    while !rest.is_empty()
        invariant
            v == state@,
            v.wf(),
            side == stm as int,
            stm < 2,
            occ@ == v.occupied(),
            us@ == v.sides[side],
            rest@.subset_of(us@),
            actions@.no_duplicates(),
            forall|a: Action|
                actions@.contains(a) <==> is_piece_move(v, side, a) && !rest@.contains(
                    a.origin()->0.index(),
                ),
        decreases rest.0,
    {
        let ghost before = rest@;
        let ghost listed = actions@;
        let sq = Square(rest.pop_lsb());
        assert(before.contains(sq.index()));
        assert(v.sides[side].contains(sq.index()));
        let piece = state.piece_on_square(sq);
        let kind = piece.piece();
        let reach = if kind == PAWN {
            Bitboard::empty()
        } else {
            get_attacks(kind, sq, occ, stm)
        };
        let targets = reach.without(us);
        push_moves(&mut actions, sq, targets, kind < GOLD, stm);
        proof {
            assert forall|a: Action|
                actions@.contains(a) <==> is_piece_move(v, side, a) && !rest@.contains(
                    a.origin()->0.index(),
                ) by {
                if is_piece_move(v, side, a) && !rest@.contains(a.origin()->0.index()) {
                    if a.origin()->0.index() == sq.index() {
                        assert(a.origin()->0 == sq);
                        assert(is_move_from(a, sq, targets@, kind < GOLD, side));
                    } else {
                        assert(!before.contains(a.origin()->0.index()));
                        assert(listed.contains(a));
                    }
                }
                if is_move_from(a, sq, targets@, kind < GOLD, side) {
                    assert(is_piece_move(v, side, a));
                }
            }
        }
    }

    let our_pawns = state.sided_piece(PAWN, stm);
    let pawn_attacks = setwise_pawns(our_pawns, stm).without(us);
    proof {
        assert forall|t: int| pawn_attacks@.contains(t) implies on_board(t) && on_board(
            t - 9 * forward(side),
        ) by {
            assert(pawn_targets(our_pawns@, side).contains(t));
            assert(v.sides[side].contains(t - 9 * forward(side)));
        }
        assert forall|a: Action| actions@.contains(a) implies !is_pawn_step(
            a,
            pawn_attacks@,
            side,
        ) by {
            if is_pawn_step(a, pawn_attacks@, side) {
                assert(pawn_targets(our_pawns@, side).contains(a.target().index()));
                assert(v.kinds[0].contains(a.origin()->0.index()));
            }
        }
    }
    let ghost listed = actions@;
    push_pawn_moves(&mut actions, pawn_attacks, stm);
    proof {
        assert forall|a: Action| actions@.contains(a) <==> is_any_move(v, side, a) by {
            if is_pawn_step(a, pawn_attacks@, side) {
                let from = a.origin()->0.index();
                let to = a.target().index();
                assert(pawn_targets(our_pawns@, side).contains(to));
                assert(v.sides[side].contains(from));
                assert(v.kinds[0].contains(from));
                assert(is_any_move(v, side, a));
            }
            if is_any_move(v, side, a) {
                let from = a.origin()->0.index();
                let to = a.target().index();
                if v.piece_at(from).kind == 0 {
                    assert(v.kinds[0].contains(from));
                    assert(our_pawns@.contains(from));
                    assert(from == to - 9 * forward(side));
                    assert(pawn_targets(our_pawns@, side).contains(to));
                    assert(is_pawn_step(a, pawn_attacks@, side));
                } else {
                    assert(is_piece_move(v, side, a));
                    assert(listed.contains(a));
                }
            }
        }
    }

    let hand = state.hand(stm);
    let mut kind: u8 = 0;
    while kind < 7
        invariant
            v == state@,
            v.wf(),
            side == stm as int,
            stm < 2,
            kind <= 7,
            hand@ == v.hands[side],
            actions@.no_duplicates(),
            forall|a: Action|
                actions@.contains(a) <==> is_any_move(v, side, a) || is_drop_below(
                    v,
                    side,
                    a,
                    kind as int,
                ),
        decreases 7 - kind,
    {
        let piece = Piece::new_unchecked(kind, stm);
        let ghost listed = actions@;
        if hand.get(piece) > 0 {
            let squares = drop_squares(state, kind, stm);
            push_drops(&mut actions, piece, squares);
        }
        proof {
            assert forall|a: Action|
                actions@.contains(a) <==> is_any_move(v, side, a) || is_drop_below(
                    v,
                    side,
                    a,
                    kind + 1,
                ) by {
                if is_drop_below(v, side, a, kind + 1) && !is_drop_below(v, side, a, kind as int) {
                    assert(a matches Action::Drop { piece: p, .. } && p == piece);
                }
            }
        }
        kind += 1;
    }
    actions
}

} // verus!
