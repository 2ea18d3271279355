//! Pieces: a category and a side, or the value that stands for "no piece".

use crate::text::string_from_chars;
use vstd::prelude::*;

verus! {

/// The number of piece categories.
pub const NUM_PIECE_TYPES: u8 = 14;

/// The offset from a base category to its promoted category.
pub const PROMOTION_OFFSET: u8 = 8;

pub const PAWN: u8 = 0;

pub const LANCE: u8 = 1;

pub const KNIGHT: u8 = 2;

pub const SILVER: u8 = 3;

pub const BISHOP: u8 = 4;

pub const ROOK: u8 = 5;

pub const GOLD: u8 = 6;

pub const KING: u8 = 7;

pub const PROMO_PAWN: u8 = 8;

pub const PROMO_LANCE: u8 = 9;

pub const PROMO_KNIGHT: u8 = 10;

pub const PROMO_SILVER: u8 = 11;

pub const PROMO_BISHOP: u8 = 12;

pub const PROMO_ROOK: u8 = 13;

/// The side that moves first.
pub const SENTE: u8 = 0;

/// The side that moves second.
pub const GOTE: u8 = 1;

/// The category code of "no piece".
pub const NO_KIND: u8 = 14;

/// The side code of "no piece".
pub const NO_SIDE: u8 = 2;

/// A piece on the board or in a hand: a category `0..14` and a side `0..2`;
/// or "no piece", which has the category `NO_KIND` and the side `NO_SIDE`.
#[derive(Debug, Copy, Clone, PartialEq, Eq, Structural)]
pub struct Piece {
    pub kind: u8,
    pub side: u8,
}

/// Whether `kind` is the code of a piece category.
pub open spec fn is_kind(kind: int) -> bool {
    0 <= kind < 14
}

/// Whether `side` is the code of a side.
pub open spec fn is_side(side: int) -> bool {
    side == 0 || side == 1
}

/// Whether a piece of this category may promote: pawn, lance, knight,
/// silver, bishop and rook may; gold, king and the promoted categories may not.
pub open spec fn can_promote(kind: int) -> bool {
    0 <= kind < 6
}

/// Whether a piece of this category can be held in a hand and dropped: every
/// base category but the king.
pub open spec fn is_droppable(kind: int) -> bool {
    0 <= kind < 7
}

/// Whether `kind` is a promoted category.
pub open spec fn is_promoted_kind(kind: int) -> bool {
    8 <= kind < 14
}

/// The letter of a base category, in upper case.
pub open spec fn base_letter(kind: int) -> char {
    if kind == 0 {
        'P'
    } else if kind == 1 {
        'L'
    } else if kind == 2 {
        'N'
    } else if kind == 3 {
        'S'
    } else if kind == 4 {
        'B'
    } else if kind == 5 {
        'R'
    } else if kind == 6 {
        'G'
    } else {
        'K'
    }
}

/// The lower-case form of an upper-case piece letter.
pub open spec fn lower_letter(c: char) -> char {
    if c == 'P' {
        'p'
    } else if c == 'L' {
        'l'
    } else if c == 'N' {
        'n'
    } else if c == 'S' {
        's'
    } else if c == 'B' {
        'b'
    } else if c == 'R' {
        'r'
    } else if c == 'G' {
        'g'
    } else {
        'k'
    }
}

/// The letter that stands for a piece of category `kind` and side `side`:
/// the letter of its base category, upper case for the first side and lower
/// case for the second.
pub open spec fn piece_letter(kind: int, side: int) -> char {
    let base = if kind >= 8 {
        kind - 8
    } else {
        kind
    };
    if side == 0 {
        base_letter(base)
    } else {
        lower_letter(base_letter(base))
    }
}

/// The text of a piece: its letter, after a `+` if it is promoted. The text
/// of "no piece" is one space.
pub open spec fn piece_text(p: Piece) -> Seq<char> {
    if !p.valid() {
        seq![' ']
    } else if is_promoted_kind(p.kind as int) {
        seq!['+', piece_letter(p.kind as int, p.side as int)]
    } else {
        seq![piece_letter(p.kind as int, p.side as int)]
    }
}

impl Piece {
    /// Whether this is a piece: a category and a side that exist.
    pub open spec fn valid(self) -> bool {
        is_kind(self.kind as int) && is_side(self.side as int)
    }

    /// Whether this is the value "no piece".
    pub open spec fn is_none(self) -> bool {
        self == (Piece { kind: NO_KIND, side: NO_SIDE })
    }

    /// The value "no piece".
    pub fn none() -> (r: Piece)
        ensures
            r.is_none(),
            !r.valid(),
    {
        Piece { kind: NO_KIND, side: NO_SIDE }
    }

    /// The piece of the given category and side, if both exist.
    pub fn new(kind: u8, side: u8) -> (r: Option<Piece>)
        ensures
            is_kind(kind as int) && is_side(side as int) <==> r is Some,
            r is Some ==> r->0 == (Piece { kind, side }),
    {
        if kind < NUM_PIECE_TYPES && side < 2 {
            Some(Piece { kind, side })
        } else {
            None
        }
    }

    /// The piece of the given category and side.
    pub fn new_unchecked(kind: u8, side: u8) -> (r: Piece)
        requires
            is_kind(kind as int),
            is_side(side as int),
        ensures
            r == (Piece { kind, side }),
            r.valid(),
    {
        Piece { kind, side }
    }

    /// Whether this is a piece rather than "no piece".
    pub fn is_piece(&self) -> (r: bool)
        ensures
            r == self.valid(),
    {
        self.kind < NUM_PIECE_TYPES && self.side < 2
    }

    /// The piece's category.
    pub fn piece(&self) -> (r: u8)
        ensures
            r == self.kind,
    {
        self.kind
    }

    /// The piece's side.
    pub fn side(&self) -> (r: u8)
        ensures
            r == self.side,
    {
        self.side
    }

    /// The same category on the side `stm`.
    pub fn as_stm(&self, stm: u8) -> (r: Piece)
        ensures
            r == (Piece { kind: self.kind, side: stm }),
    {
        Piece { kind: self.kind, side: stm }
    }

    /// Whether the piece is of a promoted category.
    pub fn is_promoted(&self) -> (r: bool)
        ensures
            r == is_promoted_kind(self.kind as int),
    {
        self.kind >= PROMOTION_OFFSET && self.kind < NUM_PIECE_TYPES
    }

    /// The promoted form of a piece that may promote.
    pub fn promoted(&self) -> (r: Piece)
        requires
            can_promote(self.kind as int),
        ensures
            r == (Piece { kind: (self.kind + 8) as u8, side: self.side }),
    {
        Piece { kind: self.kind + PROMOTION_OFFSET, side: self.side }
    }

    /// The piece's letter: that of its base category, upper case for the
    /// first side and lower case for the second.
    pub fn letter(&self) -> (r: char)
        requires
            self.valid(),
        ensures
            r == piece_letter(self.kind as int, self.side as int),
    {
        let base: u8 = if self.kind >= PROMOTION_OFFSET {
            self.kind - PROMOTION_OFFSET
        } else {
            self.kind
        };
        if self.side == SENTE {
            if base == PAWN {
                'P'
            } else if base == LANCE {
                'L'
            } else if base == KNIGHT {
                'N'
            } else if base == SILVER {
                'S'
            } else if base == BISHOP {
                'B'
            } else if base == ROOK {
                'R'
            } else if base == GOLD {
                'G'
            } else {
                'K'
            }
        } else {
            if base == PAWN {
                'p'
            } else if base == LANCE {
                'l'
            } else if base == KNIGHT {
                'n'
            } else if base == SILVER {
                's'
            } else if base == BISHOP {
                'b'
            } else if base == ROOK {
                'r'
            } else if base == GOLD {
                'g'
            } else {
                'k'
            }
        }
    }

    /// Appends the piece's text to `out`.
    pub fn write_text(&self, out: &mut Vec<char>)
        ensures
            final(out)@ == old(out)@ + piece_text(*self),
    {
        if !self.is_piece() {
            out.push(' ');
        } else if self.is_promoted() {
            out.push('+');
            out.push(self.letter());
        } else {
            out.push(self.letter());
        }
        proof {
            assert(out@ =~= old(out)@ + piece_text(*self));
        }
    }
}

impl Piece {
    /// The piece's text as a string.
    pub fn to_string(&self) -> (r: String)
        ensures
            r@ == piece_text(*self),
    {
        let mut chars: Vec<char> = Vec::new();
        self.write_text(&mut chars);
        proof {
            assert(chars@ =~= piece_text(*self));
        }
        string_from_chars(&chars)
    }
}

impl Default for Piece {
    /// The value "no piece".
    fn default() -> (r: Piece)
        ensures
            r.is_none(),
    {
        Piece { kind: NO_KIND, side: NO_SIDE }
    }
}

} // verus!
