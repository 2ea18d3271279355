//! A position on the board, and a game's line of positions.

use crate::fen::parse_fen;
use crate::fen::read_fen;
use crate::fen::FenError;
use crate::generate::generate;
use crate::position::lemma_add_piece_wf;
use crate::position::lemma_empty_wf;
use crate::position::lemma_move_piece_wf;
use crate::position::lemma_remove_piece_wf;
use crate::position::toggled;
use crate::position::PositionView;
use crate::render::board_text;
use crate::render::render;
use crate::rules::is_action;
use crate::text::chars_of;
use crate::text::string_from_chars;
use crate::types::action::Action;
use crate::types::action::Actionlist;
use crate::types::bitboard::Bitboard;
use crate::types::hand::Hand;
use crate::types::piece::is_droppable;
use crate::types::piece::is_kind;
use crate::types::piece::is_side;
use crate::types::piece::Piece;
use crate::types::piece::NO_KIND;
use crate::types::piece::NO_SIDE;
use crate::types::square::Square;
use vstd::prelude::*;

verus! {

/// One board snapshot: which squares each side occupies, which squares each
/// category occupies, the piece on each square, and the two hands.
#[derive(Debug)]
pub struct Position {
    sides: [Bitboard; 2],
    pieces: [Bitboard; 14],
    mailbox: [Piece; 81],
    hands: [Hand; 2],
}

impl View for Position {
    type V = PositionView;

    closed spec fn view(&self) -> PositionView {
        PositionView {
            sides: Seq::new(2, |c: int| self.sides@[c]@),
            kinds: Seq::new(14, |k: int| self.pieces@[k]@),
            mailbox: self.mailbox@,
            hands: Seq::new(2, |c: int| self.hands@[c]@),
        }
    }
}

impl Position {
    /// The position with no piece on the board and none in a hand.
    pub fn new() -> (r: Position)
        ensures
            r@ == PositionView::empty(),
            r@.wf(),
    {
        let hand = Hand::new();
        let none = Bitboard::empty();
        let nothing = Piece::none();
        let sides = [none;2];
        let pieces = [none;14];
        let mailbox = [nothing;81];
        let hands = [hand;2];
        let r = Position { sides, pieces, mailbox, hands };
        proof {
            crate::types::bits::lemma_zero();
            lemma_empty_wf();
            vstd::array::axiom_spec_array_fill_for_copy_type::<Bitboard, 2>(none);
            vstd::array::axiom_spec_array_fill_for_copy_type::<Bitboard, 14>(none);
            vstd::array::axiom_spec_array_fill_for_copy_type::<Piece, 81>(nothing);
            vstd::array::axiom_spec_array_fill_for_copy_type::<Hand, 2>(hand);
            assert forall|c: int| 0 <= c < 2 implies #[trigger] sides@[c] == Bitboard(0) by {}
            assert forall|k: int| 0 <= k < 14 implies #[trigger] pieces@[k] == Bitboard(0) by {}
            assert forall|s: int| 0 <= s < 81 implies #[trigger] mailbox@[s] == (Piece {
                kind: NO_KIND,
                side: NO_SIDE,
            }) by {}
            assert forall|c: int| 0 <= c < 2 implies #[trigger] hands@[c] == hand by {}
            assert(r@.sides =~~= PositionView::empty().sides);
            assert(r@.kinds =~~= PositionView::empty().kinds);
            assert(r@.mailbox =~= PositionView::empty().mailbox);
            assert(r@.hands =~~= PositionView::empty().hands);
            assert(r@ =~~= PositionView::empty());
        }
        r
    }

    /// Every position has two side views, fourteen category views, 81
    /// recorded pieces and two hands of seven counts.
    pub proof fn lemma_shaped(&self)
        ensures
            self@.shaped(),
    {
    }

    /// Adds `piece` on `sq`: switches the square's mark in the view of the
    /// piece's side and in the view of its category, and records the piece
    /// for the square. On an empty square of a well-formed position this
    /// leaves the position well formed.
    pub fn add_piece(&mut self, sq: Square, piece: Piece)
        requires
            sq.valid(),
            piece.valid(),
        ensures
            final(self)@ == old(self)@.add_piece(sq.index(), piece),
            old(self)@.wf() && old(self)@.piece_at(sq.index()).is_none() ==> final(self)@.wf(),
    {
        let bitboard_square: Bitboard = Bitboard::from_square(sq);
        let side = piece.side as usize;
        let kind = piece.kind as usize;
        self.sides[side] = self.sides[side].const_xor(bitboard_square);
        self.pieces[kind] = self.pieces[kind].const_xor(bitboard_square);
        self.mailbox[sq.as_usize()] = piece;
        proof {
            let v = old(self)@;
            let w = v.add_piece(sq.index(), piece);
            assert(self@.sides[side as int] =~= toggled(v.sides[side as int], sq.index()));
            assert(self@.kinds[kind as int] =~= toggled(v.kinds[kind as int], sq.index()));
            assert(self@.sides =~~= w.sides);
            assert(self@.kinds =~~= w.kinds);
            assert(self@.mailbox =~= w.mailbox);
            assert(self@.hands =~~= w.hands);
            assert(self@ =~~= w);
            if v.wf() && v.piece_at(sq.index()).is_none() {
                lemma_add_piece_wf(v, sq.index(), piece);
            }
        }
    }

    /// Removes `piece` from `sq`: switches the square's mark in the view of
    /// the piece's side and in the view of its category, and records "no
    /// piece" for the square. Where `piece` is what stands on `sq` in a
    /// well-formed position, this leaves the position well formed.
    pub fn remove_piece(&mut self, sq: Square, piece: Piece)
        requires
            sq.valid(),
            piece.valid(),
        ensures
            final(self)@ == old(self)@.remove_piece(sq.index(), piece),
            old(self)@.wf() && old(self)@.piece_at(sq.index()) == piece ==> final(self)@.wf(),
    {
        let bitboard_square: Bitboard = Bitboard::from_square(sq);
        let side = piece.side as usize;
        let kind = piece.kind as usize;
        self.sides[side] = self.sides[side].const_xor(bitboard_square);
        self.pieces[kind] = self.pieces[kind].const_xor(bitboard_square);
        self.mailbox[sq.as_usize()] = Piece::none();
        proof {
            let v = old(self)@;
            let w = v.remove_piece(sq.index(), piece);
            assert(self@.sides[side as int] =~= toggled(v.sides[side as int], sq.index()));
            assert(self@.kinds[kind as int] =~= toggled(v.kinds[kind as int], sq.index()));
            assert(self@.sides =~~= w.sides);
            assert(self@.kinds =~~= w.kinds);
            assert(self@.mailbox =~= w.mailbox);
            assert(self@.hands =~~= w.hands);
            assert(self@ =~~= w);
            if v.wf() && v.piece_at(sq.index()) == piece {
                lemma_remove_piece_wf(v, sq.index(), piece);
            }
        }
    }

    /// Moves `piece` from `from` to `to`. If `victim` is a piece it is
    /// removed from `to` first; then the mover is removed from `from` and
    /// added on `to`. The caller names the mover and the victim: nothing is
    /// looked up. Where they are what stands on the two squares of a
    /// well-formed position, and the squares differ, this leaves the position
    /// well formed.
    pub fn move_piece(&mut self, from: Square, piece: Piece, to: Square, victim: Piece)
        requires
            from.valid(),
            to.valid(),
            piece.valid(),
            victim.valid() || victim.is_none(),
        ensures
            final(self)@ == old(self)@.move_piece(from.index(), piece, to.index(), victim),
            old(self)@.wf() && from != to && old(self)@.piece_at(from.index()) == piece && old(
                self,
            )@.piece_at(to.index()) == victim ==> final(self)@.wf(),
    {
        if victim.is_piece() {
            self.remove_piece(to, victim);
        }
        self.remove_piece(from, piece);
        self.add_piece(to, piece);
        proof {
            let v = old(self)@;
            if v.wf() && from != to && v.piece_at(from.index()) == piece && v.piece_at(to.index())
                == victim {
                lemma_move_piece_wf(v, from.index(), piece, to.index(), victim);
            }
        }
    }

    /// The piece recorded for `sq`.
    pub fn piece_on_square(&self, sq: Square) -> (r: Piece)
        requires
            sq.valid(),
        ensures
            r == self@.piece_at(sq.index()),
    {
        self.mailbox[sq.as_usize()]
    }

    /// The squares that either side occupies.
    pub fn occupied(&self) -> (r: Bitboard)
        ensures
            r@ == self@.occupied(),
    {
        self.sides[0].const_or(self.sides[1])
    }

    /// The squares that the side `side` occupies with pieces of the category `piece`.
    pub fn sided_piece(&self, piece: u8, side: u8) -> (r: Bitboard)
        requires
            is_kind(piece as int),
            is_side(side as int),
        ensures
            r@ == self@.sided_piece(piece as int, side as int),
    {
        self.sides[side as usize].const_and(self.pieces[piece as usize])
    }

    /// The squares that the side `side` occupies.
    pub fn side_squares(&self, side: u8) -> (r: Bitboard)
        requires
            is_side(side as int),
        ensures
            r@ == self@.sides[side as int],
    {
        self.sides[side as usize]
    }

    /// The hand of the side `side`.
    pub fn hand(&self, side: u8) -> (r: Hand)
        requires
            is_side(side as int),
        ensures
            r@ == self@.hands[side as int],
    {
        self.hands[side as usize]
    }

    /// Sets how many pieces of the category of `piece` the side of `piece`
    /// holds in its hand.
    pub fn set_hand(&mut self, piece: Piece, count: u8)
        requires
            is_droppable(piece.kind as int),
            is_side(piece.side as int),
        ensures
            final(self)@ == old(self)@.set_hand(piece.side as int, piece.kind as int, count),
            old(self)@.wf() ==> final(self)@.wf(),
    {
        let side = piece.side as usize;
        let mut hand = self.hands[side];
        hand.set(piece, count);
        self.hands[side] = hand;
        proof {
            let v = old(self)@;
            let w = v.set_hand(piece.side as int, piece.kind as int, count);
            assert(self@.sides =~~= w.sides);
            assert(self@.kinds =~~= w.kinds);
            assert(self@.hands =~~= w.hands);
            assert(self@ =~~= w);
        }
    }
}

impl Clone for Position {
    /// A copy of the position.
    fn clone(&self) -> (r: Position)
        ensures
            r@ == self@,
    {
        Position {
            sides: self.sides,
            pieces: self.pieces,
            mailbox: self.mailbox,
            hands: self.hands,
        }
    }
}

impl Default for Position {
    /// The position with no piece on the board and none in a hand.
    fn default() -> (r: Position)
        ensures
            r@ == PositionView::empty(),
            r@.wf(),
    {
        Position::new()
    }
}

/// How many positions a new board has room for before its history grows.
pub const HISTORY_CAPACITY: usize = 256;

/// What a board holds: the positions of a line of play, oldest first, the
/// side to move and the ply count.
pub struct BoardView {
    pub history: Seq<PositionView>,
    pub stm: int,
    pub ply: int,
}

impl BoardView {
    /// The position that the board stands at: the last of its history.
    pub open spec fn current(self) -> PositionView {
        self.history[self.history.len() - 1]
    }

    /// The history holds a position, every position of it is well formed,
    /// and the side to move is one of the two sides.
    pub open spec fn wf(self) -> bool {
        &&& self.history.len() >= 1
        &&& self.stm == 0 || self.stm == 1
        &&& forall|i: int| 0 <= i < self.history.len() ==> (#[trigger] self.history[i]).wf()
    }
}

/// One line of play: the positions reached so far, the last of which is
/// the current one, the side to move and the ply count.
#[derive(Debug)]
pub struct Board {
    states: Vec<Position>,
    stm: u8,
    ply: i16,
}

impl View for Board {
    type V = BoardView;

    closed spec fn view(&self) -> BoardView {
        BoardView {
            history: Seq::new(self.states@.len(), |i: int| self.states@[i]@),
            stm: self.stm as int,
            ply: self.ply as int,
        }
    }
}

impl Board {
    /// A board whose history holds the empty position alone, with the first
    /// side to move and a ply count of zero.
    pub fn new() -> (r: Board)
        ensures
            r@.wf(),
            r@.history == seq![PositionView::empty()],
            r@.stm == 0,
            r@.ply == 0,
    {
        let mut states: Vec<Position> = Vec::with_capacity(HISTORY_CAPACITY);
        states.push(Position::new());
        let r = Board { states, stm: 0, ply: 0 };
        proof {
            assert(r@.history =~= seq![PositionView::empty()]);
        }
        r
    }

    /// The current position.
    fn current_state(&self) -> (r: &Position)
        requires
            self@.wf(),
        ensures
            r@ == self@.current(),
            r@.wf(),
    {
        &self.states[self.states.len() - 1]
    }

    /// The current position, to be changed in place. The rest of the
    /// history, the side to move and the ply count stay as they are.
    #[allow(dead_code)]
    fn current_state_mut(&mut self) -> (r: &mut Position)
        requires
            old(self)@.history.len() >= 1,
        ensures
            r@ == old(self)@.current(),
            final(self)@.history == old(self)@.history.update(
                old(self)@.history.len() - 1,
                final(r)@,
            ),
            final(self)@.stm == old(self)@.stm,
            final(self)@.ply == old(self)@.ply,
    {
        let last = self.states.len() - 1;
        &mut self.states[last]
    }

    /// The side to move: 0 for the first side, 1 for the second.
    pub fn stm(&self) -> (r: u8)
        ensures
            r == self@.stm,
    {
        self.stm
    }

    /// The ply count.
    pub fn ply(&self) -> (r: i16)
        ensures
            r == self@.ply,
    {
        self.ply
    }

    /// How many positions the history holds.
    pub fn history_len(&self) -> (r: usize)
        ensures
            r == self@.history.len(),
    {
        self.states.len()
    }

    /// Reads the notation of a position and makes that position the
    /// current one. Where the text is well formed, the position is appended
    /// to the history, the side to move is the one that the text names, and
    /// the ply count is the one that the text gives, or stays if the text
    /// gives none. Where it is not, the error says why and the board stays
    /// as it is.
    pub fn load_fen(&mut self, fen: &str) -> (r: Result<(), FenError>)
        requires
            old(self)@.wf(),
        ensures
            final(self)@.wf(),
            match parse_fen(fen@) {
                Ok(v) => r is Ok && final(self)@.history == old(self)@.history.push(v.position)
                    && final(self)@.stm == v.stm && final(self)@.ply == (match v.ply {
                    Some(n) => n,
                    None => old(self)@.ply,
                }),
                Err(e) => r == Err::<(), FenError>(e) && final(self)@ == old(self)@,
            },
    {
        let chars = chars_of(fen);
        match read_fen(&chars) {
            Err(e) => Err(e),
            Ok(parsed) => {
                let ghost before = self@;
                let ghost position = parsed.position@;
                self.stm = parsed.stm;
                match parsed.ply {
                    Some(n) => {
                        self.ply = n;
                    },
                    None => {},
                }
                self.states.push(parsed.position);
                proof {
                    assert(self@.history =~= before.history.push(position));
                }
                Ok(())
            },
        }
    }

    /// The actions of the side to move in the current position: every
    /// pseudo-legal move and drop, each once.
    pub fn get_actions(&self) -> (r: Actionlist)
        requires
            self@.wf(),
        ensures
            r@.no_duplicates(),
            forall|a: Action| r@.contains(a) <==> is_action(self@.current(), self@.stm, a),
    {
        generate(self.current_state(), self.stm)
    }

    /// The piece on `sq` in the current position.
    pub fn piece_on_square(&self, sq: Square) -> (r: Piece)
        requires
            self@.wf(),
            sq.valid(),
        ensures
            r == self@.current().piece_at(sq.index()),
    {
        self.current_state().piece_on_square(sq)
    }

    /// The picture of the board as text: the grid of the current position,
    /// the side to move, the two hands and the ply count.
    pub fn render_state(&self) -> (r: String)
        requires
            self@.wf(),
        ensures
            r@ == board_text(self@.current(), self@.stm, self@.ply),
    {
        let chars = render(self.current_state(), self.stm, self.ply);
        string_from_chars(&chars)
    }
}

impl Clone for Board {
    /// A copy of the board with its whole history.
    fn clone(&self) -> (r: Board)
        ensures
            r@ == self@,
    {
        let mut states: Vec<Position> = Vec::with_capacity(self.states.len());
        let mut i: usize = 0;
        while i < self.states.len()
            invariant
                i <= self.states@.len(),
                states@.len() == i,
                forall|j: int| 0 <= j < i ==> (#[trigger] states@[j])@ == self.states@[j]@,
            decreases self.states@.len() - i,
        {
            states.push(self.states[i].clone());
            i += 1;
        }
        let r = Board { states, stm: self.stm, ply: self.ply };
        proof {
            assert(r@.history =~= self@.history);
        }
        r
    }
}

impl Default for Board {
    /// A board whose history holds the empty position alone.
    fn default() -> (r: Board)
        ensures
            r@.wf(),
            r@.history == seq![PositionView::empty()],
            r@.stm == 0,
            r@.ply == 0,
    {
        Board::new()
    }
}

} // verus!
