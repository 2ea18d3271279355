//! The mathematical model of a position: three views of the placement that
//! must agree, and the two hands.

use crate::types::piece::Piece;
use crate::types::piece::NO_KIND;
use crate::types::piece::NO_SIDE;
use crate::types::square::on_board;
use vstd::prelude::*;

verus! {

/// `s` with the membership of `x` switched.
pub open spec fn toggled(s: Set<int>, x: int) -> Set<int> {
    if s.contains(x) {
        s.remove(x)
    } else {
        s.insert(x)
    }
}

/// What a position holds.
///
/// - `sides[c]` is the set of squares marked as occupied by the side `c`;
/// - `kinds[k]` is the set of squares marked as occupied by a piece of the
///   category `k`, of either side;
/// - `mailbox[s]` is the piece recorded for the square `s`;
/// - `hands[c][k]` is how many pieces of the category `k` the side `c` holds.
#[verifier::ext_equal]
pub struct PositionView {
    pub sides: Seq<Set<int>>,
    pub kinds: Seq<Set<int>>,
    pub mailbox: Seq<Piece>,
    pub hands: Seq<Seq<u8>>,
}

/// One call of a placement primitive.
pub enum Placement {
    Add { sq: int, piece: Piece },
    Remove { sq: int, piece: Piece },
    Move { from: int, piece: Piece, to: int, victim: Piece },
}

impl PositionView {
    /// The position with no piece on the board and none in a hand.
    pub open spec fn empty() -> PositionView {
        PositionView {
            sides: Seq::new(2, |c: int| Set::<int>::empty()),
            kinds: Seq::new(14, |k: int| Set::<int>::empty()),
            mailbox: Seq::new(81, |s: int| Piece { kind: NO_KIND, side: NO_SIDE }),
            hands: Seq::new(2, |c: int| Seq::new(7, |k: int| 0u8)),
        }
    }

    /// Two side views, fourteen category views, 81 recorded pieces, two
    /// hands of seven counts each.
    pub open spec fn shaped(self) -> bool {
        &&& self.sides.len() == 2
        &&& self.kinds.len() == 14
        &&& self.mailbox.len() == 81
        &&& self.hands.len() == 2
        &&& self.hands[0].len() == 7
        &&& self.hands[1].len() == 7
    }

    /// The piece recorded for the square `sq`.
    pub open spec fn piece_at(self, sq: int) -> Piece {
        self.mailbox[sq]
    }

    /// The three views agree: every recorded piece is a piece or "no piece";
    /// a side view holds exactly the squares of the board whose recorded piece
    /// is of that side; a category view holds exactly the squares of the board
    /// whose recorded piece is of that category.
    pub open spec fn wf(self) -> bool {
        &&& self.shaped()
        &&& forall|s: int|
            0 <= s < 81 ==> (#[trigger] self.mailbox[s]).valid() || self.mailbox[s].is_none()
        &&& forall|c: int, s: int|
            0 <= c < 2 ==> (#[trigger] self.sides[c].contains(s) <==> on_board(s)
                && self.mailbox[s].valid() && self.mailbox[s].side == c)
        &&& forall|k: int, s: int|
            0 <= k < 14 ==> (#[trigger] self.kinds[k].contains(s) <==> on_board(s)
                && self.mailbox[s].valid() && self.mailbox[s].kind == k)
    }

    /// The squares marked as occupied by either side.
    pub open spec fn occupied(self) -> Set<int> {
        self.sides[0].union(self.sides[1])
    }

    /// The squares marked as occupied by the side `side` and by the category `kind`.
    pub open spec fn sided_piece(self, kind: int, side: int) -> Set<int> {
        self.sides[side].intersect(self.kinds[kind])
    }

    /// Whether no view marks the square `sq`.
    pub open spec fn absent_everywhere(self, sq: int) -> bool {
        &&& forall|c: int| 0 <= c < 2 ==> !(#[trigger] self.sides[c]).contains(sq)
        &&& forall|k: int| 0 <= k < 14 ==> !(#[trigger] self.kinds[k]).contains(sq)
    }

    /// The position after `piece` was added on `sq`: the square's mark is
    /// switched in the view of the piece's side and in the view of its
    /// category, and the piece is recorded for the square.
    pub open spec fn add_piece(self, sq: int, piece: Piece) -> PositionView {
        PositionView {
            sides: self.sides.update(
                piece.side as int,
                toggled(self.sides[piece.side as int], sq),
            ),
            kinds: self.kinds.update(
                piece.kind as int,
                toggled(self.kinds[piece.kind as int], sq),
            ),
            mailbox: self.mailbox.update(sq, piece),
            hands: self.hands,
        }
    }

    /// The position after `piece` was removed from `sq`: the square's mark
    /// is switched in the view of the piece's side and in the view of its
    /// category, and "no piece" is recorded for the square.
    pub open spec fn remove_piece(self, sq: int, piece: Piece) -> PositionView {
        PositionView {
            sides: self.sides.update(
                piece.side as int,
                toggled(self.sides[piece.side as int], sq),
            ),
            kinds: self.kinds.update(
                piece.kind as int,
                toggled(self.kinds[piece.kind as int], sq),
            ),
            mailbox: self.mailbox.update(sq, Piece { kind: NO_KIND, side: NO_SIDE }),
            hands: self.hands,
        }
    }

    /// The position after `piece` went from `from` to `to`: the victim, if
    /// one is named, is removed from `to`; then the mover is removed from
    /// `from` and added on `to`.
    pub open spec fn move_piece(self, from: int, piece: Piece, to: int, victim: Piece) -> PositionView {
        let cleared = if victim.is_none() {
            self
        } else {
            self.remove_piece(to, victim)
        };
        cleared.remove_piece(from, piece).add_piece(to, piece)
    }

    /// The position with the count of the category `kind` in the hand of
    /// `side` set to `count`.
    pub open spec fn set_hand(self, side: int, kind: int, count: u8) -> PositionView {
        PositionView {
            sides: self.sides,
            kinds: self.kinds,
            mailbox: self.mailbox,
            hands: self.hands.update(side, self.hands[side].update(kind, count)),
        }
    }

    /// Whether the primitive is used as meant: a piece is added on an empty
    /// square, the piece removed is the one that stands there, a mover
    /// stands on its origin and the victim named is what stands on the
    /// destination.
    pub open spec fn admits(self, p: Placement) -> bool {
        match p {
            Placement::Add { sq, piece } => on_board(sq) && piece.valid() && self.piece_at(
                sq,
            ).is_none(),
            Placement::Remove { sq, piece } => on_board(sq) && piece.valid() && self.piece_at(sq)
                == piece,
            Placement::Move { from, piece, to, victim } => on_board(from) && on_board(to) && from
                != to && piece.valid() && self.piece_at(from) == piece && self.piece_at(to)
                == victim,
        }
    }

    /// The position after one placement primitive.
    pub open spec fn apply(self, p: Placement) -> PositionView {
        match p {
            Placement::Add { sq, piece } => self.add_piece(sq, piece),
            Placement::Remove { sq, piece } => self.remove_piece(sq, piece),
            Placement::Move { from, piece, to, victim } => self.move_piece(from, piece, to, victim),
        }
    }

    /// Whether each primitive of the sequence is used as meant on the
    /// position that the ones before it have made.
    pub open spec fn admits_all(self, ps: Seq<Placement>) -> bool
        decreases ps.len(),
    {
        if ps.len() == 0 {
            true
        } else {
            self.admits(ps[0]) && self.apply(ps[0]).admits_all(ps.drop_first())
        }
    }

    /// The position after the primitives of the sequence, first to last.
    pub open spec fn apply_all(self, ps: Seq<Placement>) -> PositionView
        decreases ps.len(),
    {
        if ps.len() == 0 {
            self
        } else {
            self.apply(ps[0]).apply_all(ps.drop_first())
        }
    }
}

/// The empty position is well formed, and no view marks any square.
pub proof fn lemma_empty_wf()
    ensures
        PositionView::empty().wf(),
        forall|s: int| PositionView::empty().absent_everywhere(s),
{
}

/// In a well-formed position the two side views share no square, and the
/// recorded piece of a square of the board is "no piece" exactly if no view
/// marks the square.
pub proof fn lemma_wf_views_agree(v: PositionView, sq: int)
    requires
        v.wf(),
        on_board(sq),
    ensures
        v.sides[0].disjoint(v.sides[1]),
        v.piece_at(sq).is_none() <==> v.absent_everywhere(sq),
        v.piece_at(sq).is_none() <==> !v.occupied().contains(sq),
{
    let p = v.mailbox[sq];
    assert(p.valid() || p.is_none());
    if p.valid() {
        assert(v.sides[p.side as int].contains(sq));
    } else {
        assert forall|c: int| 0 <= c < 2 implies !(#[trigger] v.sides[c]).contains(sq) by {}
        assert forall|k: int| 0 <= k < 14 implies !(#[trigger] v.kinds[k]).contains(sq) by {}
    }
    assert forall|s: int| !(v.sides[0].contains(s) && v.sides[1].contains(s)) by {}
}

/// Adding a piece on an empty square of a well-formed position leaves the
/// position well formed.
pub proof fn lemma_add_piece_wf(v: PositionView, sq: int, piece: Piece)
    requires
        v.wf(),
        on_board(sq),
        piece.valid(),
        v.piece_at(sq).is_none(),
    ensures
        v.add_piece(sq, piece).wf(),
{
    let w = v.add_piece(sq, piece);
    lemma_wf_views_agree(v, sq);
    assert forall|c: int, s: int| 0 <= c < 2 implies (#[trigger] w.sides[c].contains(s) <==> on_board(
        s,
    ) && w.mailbox[s].valid() && w.mailbox[s].side == c) by {
        assert(v.sides[c].contains(s) <==> on_board(s) && v.mailbox[s].valid() && v.mailbox[s].side
            == c);
    }
    assert forall|k: int, s: int| 0 <= k < 14 implies (#[trigger] w.kinds[k].contains(s)
        <==> on_board(s) && w.mailbox[s].valid() && w.mailbox[s].kind == k) by {
        assert(v.kinds[k].contains(s) <==> on_board(s) && v.mailbox[s].valid() && v.mailbox[s].kind
            == k);
    }
}

/// Removing from a square of a well-formed position the piece that stands
/// there leaves the position well formed.
pub proof fn lemma_remove_piece_wf(v: PositionView, sq: int, piece: Piece)
    requires
        v.wf(),
        on_board(sq),
        piece.valid(),
        v.piece_at(sq) == piece,
    ensures
        v.remove_piece(sq, piece).wf(),
        v.remove_piece(sq, piece).piece_at(sq).is_none(),
{
    let w = v.remove_piece(sq, piece);
    assert forall|c: int, s: int| 0 <= c < 2 implies (#[trigger] w.sides[c].contains(s) <==> on_board(
        s,
    ) && w.mailbox[s].valid() && w.mailbox[s].side == c) by {
        assert(v.sides[c].contains(s) <==> on_board(s) && v.mailbox[s].valid() && v.mailbox[s].side
            == c);
    }
    assert forall|k: int, s: int| 0 <= k < 14 implies (#[trigger] w.kinds[k].contains(s)
        <==> on_board(s) && w.mailbox[s].valid() && w.mailbox[s].kind == k) by {
        assert(v.kinds[k].contains(s) <==> on_board(s) && v.mailbox[s].valid() && v.mailbox[s].kind
            == k);
    }
}

/// Moving the piece that stands on `from` to another square, with the
/// victim named that stands there (or "no piece" for an empty square),
/// leaves a well-formed position well formed.
pub proof fn lemma_move_piece_wf(v: PositionView, from: int, piece: Piece, to: int, victim: Piece)
    requires
        v.wf(),
        on_board(from),
        on_board(to),
        from != to,
        piece.valid(),
        v.piece_at(from) == piece,
        v.piece_at(to) == victim,
    ensures
        v.move_piece(from, piece, to, victim).wf(),
        v.move_piece(from, piece, to, victim).piece_at(to) == piece,
        v.move_piece(from, piece, to, victim).piece_at(from).is_none(),
{
    assert(victim.valid() || victim.is_none());
    let cleared = if victim.is_none() {
        v
    } else {
        v.remove_piece(to, victim)
    };
    if !victim.is_none() {
        lemma_remove_piece_wf(v, to, victim);
    }
    lemma_remove_piece_wf(cleared, from, piece);
    lemma_add_piece_wf(cleared.remove_piece(from, piece), to, piece);
}

/// A placement primitive that is used as meant leaves a well-formed position well formed.
pub proof fn lemma_apply_wf(v: PositionView, p: Placement)
    requires
        v.wf(),
        v.admits(p),
    ensures
        v.apply(p).wf(),
{
    match p {
        Placement::Add { sq, piece } => {
            lemma_add_piece_wf(v, sq, piece);
        },
        Placement::Remove { sq, piece } => {
            lemma_remove_piece_wf(v, sq, piece);
        },
        Placement::Move { from, piece, to, victim } => {
            lemma_move_piece_wf(v, from, piece, to, victim);
        },
    }
}

/// After any sequence of placement primitives, each used as meant, a
/// well-formed position is well formed: its side views share no square, and
/// a square's recorded piece is "no piece" exactly if no view marks it.
pub proof fn lemma_placements_keep_invariant(v: PositionView, ps: Seq<Placement>, sq: int)
    requires
        v.wf(),
        v.admits_all(ps),
        on_board(sq),
    ensures
        v.apply_all(ps).wf(),
        v.apply_all(ps).sides[0].disjoint(v.apply_all(ps).sides[1]),
        v.apply_all(ps).piece_at(sq).is_none() <==> v.apply_all(ps).absent_everywhere(sq),
    decreases ps.len(),
{
    if ps.len() == 0 {
        lemma_wf_views_agree(v, sq);
    } else {
        lemma_apply_wf(v, ps[0]);
        lemma_placements_keep_invariant(v.apply(ps[0]), ps.drop_first(), sq);
    }
}

/// Adding a piece on a square and removing it again records "no piece" for
/// the square and gives every view back as it was. Where the square was
/// marked neither in the view of the piece's side nor in the view of its
/// category, it is marked in neither afterwards; where the position was well
/// formed and the square empty, the whole position is as before and no view
/// marks the square.
pub proof fn lemma_add_then_remove(v: PositionView, sq: int, piece: Piece)
    requires
        v.shaped(),
        on_board(sq),
        piece.valid(),
    ensures
        v.add_piece(sq, piece).remove_piece(sq, piece).piece_at(sq).is_none(),
        v.add_piece(sq, piece).remove_piece(sq, piece).sides == v.sides,
        v.add_piece(sq, piece).remove_piece(sq, piece).kinds == v.kinds,
        !v.sides[piece.side as int].contains(sq) ==> !v.add_piece(sq, piece).remove_piece(
            sq,
            piece,
        ).sides[piece.side as int].contains(sq),
        !v.kinds[piece.kind as int].contains(sq) ==> !v.add_piece(sq, piece).remove_piece(
            sq,
            piece,
        ).kinds[piece.kind as int].contains(sq),
        v.wf() && v.piece_at(sq).is_none() ==> v.add_piece(sq, piece).remove_piece(sq, piece) == v
            && v.add_piece(sq, piece).remove_piece(sq, piece).absent_everywhere(sq),
{
    let w = v.add_piece(sq, piece).remove_piece(sq, piece);
    let c = piece.side as int;
    let k = piece.kind as int;
    assert(toggled(toggled(v.sides[c], sq), sq) =~= v.sides[c]);
    assert(toggled(toggled(v.kinds[k], sq), sq) =~= v.kinds[k]);
    assert(w.sides =~= v.sides);
    assert(w.kinds =~= v.kinds);
    if v.wf() && v.piece_at(sq).is_none() {
        assert(w.mailbox =~= v.mailbox);
        assert(w =~~= v);
        lemma_wf_views_agree(v, sq);
    }
}

} // verus!
