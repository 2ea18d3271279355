//! Actions: moves of a piece on the board and drops of a piece from a hand.

use crate::types::piece::Piece;
use crate::types::square::Square;
use vstd::prelude::*;

verus! {

/// One action of the side to move.
#[derive(Debug, Copy, Clone, PartialEq, Eq, Structural)]
pub enum Action {
    /// The piece on `from` goes to `to`, and promotes there if `promote` is set.
    Move { from: Square, to: Square, promote: bool },
    /// A piece of the hand is put on `to`.
    Drop { piece: Piece, to: Square },
}

impl Action {
    /// A move from `from` to `to`.
    pub fn new_move(from: Square, to: Square, promote: bool) -> (r: Action)
        ensures
            r == (Action::Move { from, to, promote }),
    {
        Action::Move { from, to, promote }
    }

    /// A drop of `piece` on `to`.
    pub fn new_drop(piece: Piece, to: Square) -> (r: Action)
        ensures
            r == (Action::Drop { piece, to }),
    {
        Action::Drop { piece, to }
    }

    /// Whether the action is a drop.
    pub fn is_drop(&self) -> (r: bool)
        ensures
            r == (*self is Drop),
    {
        match self {
            Action::Drop { .. } => true,
            Action::Move { .. } => false,
        }
    }

    /// Whether the action is a move that promotes.
    pub fn is_promotion(&self) -> (r: bool)
        ensures
            r == (*self matches Action::Move { promote, .. } && promote),
    {
        match self {
            Action::Move { promote, .. } => *promote,
            Action::Drop { .. } => false,
        }
    }

    /// The square that the action ends on.
    pub fn to(&self) -> (r: Square)
        ensures
            r == self.target(),
    {
        match self {
            Action::Move { to, .. } => *to,
            Action::Drop { to, .. } => *to,
        }
    }

    /// The square that a move starts from; `None` for a drop.
    pub fn from(&self) -> (r: Option<Square>)
        ensures
            r == self.origin(),
    {
        match self {
            Action::Move { from, .. } => Some(*from),
            Action::Drop { .. } => None,
        }
    }

    /// The piece that a drop puts on the board; `None` for a move.
    pub fn dropped(&self) -> (r: Option<Piece>)
        ensures
            r == (match *self {
                Action::Drop { piece, .. } => Some(piece),
                Action::Move { .. } => None,
            }),
    {
        match self {
            Action::Drop { piece, .. } => Some(*piece),
            Action::Move { .. } => None,
        }
    }

    /// The square that the action ends on.
    pub open spec fn target(self) -> Square {
        match self {
            Action::Move { to, .. } => to,
            Action::Drop { to, .. } => to,
        }
    }

    /// The square that a move starts from; `None` for a drop.
    pub open spec fn origin(self) -> Option<Square> {
        match self {
            Action::Move { from, .. } => Some(from),
            Action::Drop { .. } => None,
        }
    }
}

/// A list of actions, in the order in which they were found.
#[derive(Debug, Clone)]
pub struct Actionlist {
    pub actions: Vec<Action>,
}

impl View for Actionlist {
    type V = Seq<Action>;

    /// The actions, first to last.
    open spec fn view(&self) -> Seq<Action> {
        self.actions@
    }
}

impl Actionlist {
    /// The empty list.
    pub fn new() -> (r: Actionlist)
        ensures
            r@ == Seq::<Action>::empty(),
    {
        Actionlist { actions: Vec::new() }
    }

    /// Appends an action.
    pub fn push(&mut self, action: Action)
        ensures
            final(self)@ == old(self)@.push(action),
    {
        self.actions.push(action);
    }

    /// The number of actions.
    pub fn len(&self) -> (r: usize)
        ensures
            r == self@.len(),
    {
        self.actions.len()
    }

    /// Whether the list holds no action.
    pub fn is_empty(&self) -> (r: bool)
        ensures
            r == (self@.len() == 0),
    {
        self.actions.len() == 0
    }

    /// The action at position `i`.
    pub fn get(&self, i: usize) -> (r: Action)
        requires
            i < self@.len(),
        ensures
            r == self@[i as int],
    {
        self.actions[i]
    }

    /// Whether the list holds `action`.
    pub fn contains(&self, action: Action) -> (r: bool)
        ensures
            r == self@.contains(action),
    {
        let mut i: usize = 0;
        while i < self.actions.len()
            invariant
                i <= self@.len(),
                forall|j: int| 0 <= j < i ==> self@[j] != action,
            decreases self@.len() - i,
        {
            if self.actions[i] == action {
                return true;
            }
            i += 1;
        }
        false
    }
}

impl Default for Actionlist {
    /// The empty list.
    fn default() -> (r: Actionlist)
        ensures
            r@ == Seq::<Action>::empty(),
    {
        Actionlist::new()
    }
}

} // verus!
