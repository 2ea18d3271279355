//! Which actions the side to move has in a position.
//!
//! The actions described here are pseudo-legal: they follow the rules of how
//! pieces move, promote and are dropped, and nothing more. Whether an action
//! leaves the mover's own king attacked, whether a promotion is forced, and
//! whether a pawn drop gives mate, is not looked at.

use crate::movegen::attacks;
use crate::movegen::bishop_attacks;
use crate::position::PositionView;
use crate::types::action::Action;
use crate::types::piece::can_promote;
use crate::types::piece::is_droppable;
use crate::types::piece::Piece;
use crate::types::square::file_of;
use crate::types::square::on_board;
use crate::types::square::rank_of;
use vstd::prelude::*;

verus! {

/// Whether the square lies in the promotion zone of `side`: the three ranks
/// farthest from that side's own camp.
pub open spec fn in_promotion_zone(side: int, sq: int) -> bool {
    if side == 0 {
        sq >= 54
    } else {
        sq < 27
    }
}

/// Whether a piece of the category `kind` and the side `side` may promote
/// when it moves from `from` to `to`: the category is one that promotes, and
/// the move starts or ends in the side's promotion zone.
pub open spec fn may_promote(kind: int, side: int, from: int, to: int) -> bool {
    can_promote(kind) && (in_promotion_zone(side, from) || in_promotion_zone(side, to))
}

/// Whether the side `stm` can move from `from` to `to`, with or without
/// promotion as `promote` says: a piece of `stm` stands on `from`, that piece
/// reaches `to` over the board as it is, no piece of `stm` stands on `to`,
/// and if the move promotes, it may.
pub open spec fn is_move(v: PositionView, stm: int, from: int, to: int, promote: bool) -> bool {
    &&& on_board(from)
    &&& on_board(to)
    &&& v.sides[stm].contains(from)
    &&& attacks(v.piece_at(from).kind as int, stm, from, v.occupied()).contains(to)
    &&& !v.sides[stm].contains(to)
    &&& promote ==> may_promote(v.piece_at(from).kind as int, stm, from, to)
}

/// Whether the side `side` has an unpromoted pawn on the file `f`.
pub open spec fn pawn_on_file(v: PositionView, side: int, f: int) -> bool {
    exists|t: int| #[trigger] v.sided_piece(0, side).contains(t) && file_of(t) == f
}

/// Whether the square lies on the rank farthest from the camp of `side`.
pub open spec fn on_last_rank(side: int, sq: int) -> bool {
    if side == 0 {
        rank_of(sq) == 8
    } else {
        rank_of(sq) == 0
    }
}

/// Whether the square lies on one of the two ranks farthest from the camp of `side`.
pub open spec fn on_last_two_ranks(side: int, sq: int) -> bool {
    if side == 0 {
        rank_of(sq) >= 7
    } else {
        rank_of(sq) <= 1
    }
}

/// Whether a piece of the category `kind` may be dropped by `side` on `to`:
/// the square is empty; a pawn or a lance does not go to the last rank; a
/// knight does not go to the last two ranks; and a pawn does not go to a
/// file on which the side has an unpromoted pawn already.
pub open spec fn drop_allowed(v: PositionView, side: int, kind: int, to: int) -> bool {
    &&& on_board(to)
    &&& !v.occupied().contains(to)
    &&& kind == 0 ==> !on_last_rank(side, to) && !pawn_on_file(v, side, file_of(to))
    &&& kind == 1 ==> !on_last_rank(side, to)
    &&& kind == 2 ==> !on_last_two_ranks(side, to)
}

/// Whether the side `stm` can drop `piece` on `to`: the piece is of that
/// side and of a category that the side holds in its hand, and it may be
/// dropped there.
pub open spec fn is_drop(v: PositionView, stm: int, piece: Piece, to: int) -> bool {
    &&& piece.side == stm
    &&& is_droppable(piece.kind as int)
    &&& v.hands[stm][piece.kind as int] > 0
    &&& drop_allowed(v, stm, piece.kind as int, to)
}

/// Whether `a` is an action of the side `stm` in the position `v`.
pub open spec fn is_action(v: PositionView, stm: int, a: Action) -> bool {
    match a {
        Action::Move { from, to, promote } => is_move(v, stm, from.index(), to.index(), promote),
        Action::Drop { piece, to } => is_drop(v, stm, piece, to.index()),
    }
}

/// A bishop of the first side that moves from outside the promotion zone to
/// square 53 has no promoting move; one that can move to square 54 has the
/// promoting move and the plain one.
pub proof fn lemma_bishop_promotion(v: PositionView, from: int)
    requires
        v.wf(),
        on_board(from),
        v.piece_at(from) == (Piece { kind: 4, side: 0 }),
    ensures
        from < 54 ==> !is_move(v, 0, from, 53, true),
        is_move(v, 0, from, 54, false) <==> is_move(v, 0, from, 54, true),
        is_move(v, 0, from, 54, false) <==> bishop_attacks(from, v.occupied()).contains(54)
            && !v.sides[0].contains(54),
{
    assert(v.sides[0].contains(from));
}

/// A side with an unpromoted pawn on a file has no pawn drop on that file;
/// if pawns are all that its hand holds, it has no drop on that file at all.
pub proof fn lemma_no_second_pawn(v: PositionView, stm: int, pawn: int, piece: Piece, to: int)
    requires
        v.wf(),
        stm == 0 || stm == 1,
        on_board(pawn),
        v.piece_at(pawn) == (Piece { kind: 0, side: stm as u8 }),
        file_of(to) == file_of(pawn),
    ensures
        piece.kind == 0 ==> !is_drop(v, stm, piece, to),
        (forall|k: int| 1 <= k < 7 ==> v.hands[stm][k] == 0) ==> !is_drop(v, stm, piece, to),
{
    assert(v.sides[stm].contains(pawn));
    assert(v.kinds[0].contains(pawn));
    assert(v.sided_piece(0, stm).contains(pawn));
    assert(pawn_on_file(v, stm, file_of(to)));
}

/// Every move ends on the board, away from where it started, on a square
/// that holds no piece of the mover's side; every drop ends on an empty square.
pub proof fn lemma_action_target(v: PositionView, stm: int, a: Action)
    requires
        v.wf(),
        stm == 0 || stm == 1,
        is_action(v, stm, a),
    ensures
        on_board(a.target().index()),
        !v.sides[stm].contains(a.target().index()),
        a is Move ==> a.origin()->0 != a.target(),
        a is Drop ==> v.piece_at(a.target().index()).is_none(),
{
    match a {
        Action::Move { from, to, promote } => {
            crate::movegen::lemma_attacks_on_board(
                v.piece_at(from.index()).kind as int,
                stm,
                from.index(),
                v.occupied(),
                to.index(),
            );
        },
        Action::Drop { piece, to } => {
            crate::position::lemma_wf_views_agree(v, to.index());
        },
    }
}

} // verus!
