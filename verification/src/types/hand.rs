//! A side's reserve of captured pieces.

use crate::text::decimal;
use crate::text::string_from_chars;
use crate::text::write_decimal;
use crate::types::piece::is_droppable;
use crate::types::piece::piece_letter;
use crate::types::piece::Piece;
use crate::types::piece::SENTE;
use vstd::prelude::*;

verus! {

/// The number of categories that a hand can hold: every base category but the king.
pub const NUM_HAND_TYPES: u8 = 7;

/// The most pieces of one category that a hand holds.
pub const MAX_HELD: u8 = 18;

/// How many pieces of each droppable category a side holds, by category code.
#[derive(Debug, Copy, Clone)]
pub struct Hand {
    pub counts: [u8; 7],
}

/// The held categories below `n`, in ascending order, each with its count,
/// as pieces of the first side.
pub open spec fn held_below(counts: Seq<u8>, n: int) -> Seq<(Piece, u8)>
    decreases n,
{
    if n <= 0 {
        Seq::empty()
    } else if counts[n - 1] > 0 {
        held_below(counts, n - 1).push((Piece { kind: (n - 1) as u8, side: SENTE }, counts[n - 1]))
    } else {
        held_below(counts, n - 1)
    }
}

/// The text of one hand entry: nothing for a count of zero, the letter for
/// one, the count and the letter for more.
pub open spec fn entry_text(kind: int, count: int, side: int) -> Seq<char> {
    if count <= 0 {
        Seq::empty()
    } else if count == 1 {
        seq![piece_letter(kind, side)]
    } else {
        decimal(count as nat).push(piece_letter(kind, side))
    }
}

/// The entries of the categories below `n`, one after the other.
pub open spec fn entries_text(counts: Seq<u8>, side: int, n: int) -> Seq<char>
    decreases n,
{
    if n <= 0 {
        Seq::empty()
    } else {
        entries_text(counts, side, n - 1) + entry_text(n - 1, counts[n - 1] as int, side)
    }
}

/// The text of a hand: its entries in ascending order of category, or `-`
/// for a hand that holds nothing.
pub open spec fn hand_text(counts: Seq<u8>, side: int) -> Seq<char> {
    if entries_text(counts, side, 7).len() == 0 {
        seq!['-']
    } else {
        entries_text(counts, side, 7)
    }
}

impl View for Hand {
    type V = Seq<u8>;

    /// The seven counts, by category code.
    open spec fn view(&self) -> Seq<u8> {
        self.counts@
    }
}

impl Hand {
    /// How many pieces of the category `kind` the hand holds.
    pub open spec fn count(self, kind: int) -> int {
        self@[kind] as int
    }

    /// Whether the hand holds nothing.
    pub open spec fn holds_nothing(self) -> bool {
        forall|k: int| 0 <= k < 7 ==> self.count(k) == 0
    }

    /// A hand that holds nothing.
    pub fn new() -> (r: Hand)
        ensures
            r.holds_nothing(),
            r@ == Seq::new(7, |k: int| 0u8),
    {
        let r = Hand { counts: [0u8;7] };
        proof {
            assert(r@ =~= Seq::new(7, |k: int| 0u8));
        }
        r
    }

    /// How many pieces of the category of `piece` the hand holds.
    pub fn get(&self, piece: Piece) -> (r: u8)
        requires
            is_droppable(piece.kind as int),
        ensures
            r == self.count(piece.kind as int),
    {
        self.counts[piece.kind as usize]
    }

    /// Sets how many pieces of the category of `piece` the hand holds. What
    /// it held of that category before is forgotten; the other categories stay.
    pub fn set(&mut self, piece: Piece, count: u8)
        requires
            is_droppable(piece.kind as int),
        ensures
            final(self)@ == old(self)@.update(piece.kind as int, count),
    {
        self.counts[piece.kind as usize] = count;
    }

    /// Whether the hand holds nothing.
    pub fn is_empty(&self) -> (r: bool)
        ensures
            r == self.holds_nothing(),
    {
        let mut k: usize = 0;
        while k < 7
            invariant
                k <= 7,
                forall|j: int| 0 <= j < k ==> self.count(j) == 0,
            decreases 7 - k,
        {
            if self.counts[k] != 0 {
                assert(self.count(k as int) != 0);
                return false;
            }
            k += 1;
        }
        true
    }

    /// The categories that the hand holds at least one piece of, in
    /// ascending order, each as a piece of the first side with its count.
    pub fn held(&self) -> (r: Vec<(Piece, u8)>)
        ensures
            r@ == held_below(self@, 7),
    {
        let mut out: Vec<(Piece, u8)> = Vec::new();
        let mut k: u8 = 0;
        while k < 7
            invariant
                k <= 7,
                out@ == held_below(self@, k as int),
            decreases 7 - k,
        {
            let count = self.counts[k as usize];
            if count > 0 {
                out.push((Piece { kind: k, side: SENTE }, count));
            }
            k += 1;
        }
        out
    }

    /// Appends the hand's text to `out`, with the letters of the side `side`.
    pub fn write_text(&self, out: &mut Vec<char>, side: u8)
        requires
            side < 2,
        ensures
            final(out)@ == old(out)@ + hand_text(self@, side as int),
    {
        let ghost start = out@;
        let mut k: u8 = 0;
        let mut any = false;
        while k < 7
            invariant
                k <= 7,
                side < 2,
                out@ == start + entries_text(self@, side as int, k as int),
                any == (entries_text(self@, side as int, k as int).len() > 0),
            decreases 7 - k,
        {
            let count = self.counts[k as usize];
            let ghost before = out@;
            if count > 0 {
                if count > 1 {
                    write_decimal(out, count as u32);
                }
                out.push((Piece { kind: k, side }).letter());
                any = true;
            }
            proof {
                let e = entry_text(k as int, count as int, side as int);
                assert(out@ =~= before + e);
                assert(before + e =~= start + (entries_text(self@, side as int, k as int) + e));
            }
            k += 1;
        }
        if !any {
            out.push('-');
            proof {
                assert(out@ =~= start + seq!['-']);
            }
        }
    }
}

impl Hand {
    /// The hand's text as a string, with the letters of the side `side`.
    pub fn to_string(&self, side: u8) -> (r: String)
        requires
            side < 2,
        ensures
            r@ == hand_text(self@, side as int),
    {
        let mut chars: Vec<char> = Vec::new();
        self.write_text(&mut chars, side);
        proof {
            assert(chars@ =~= hand_text(self@, side as int));
        }
        string_from_chars(&chars)
    }
}

impl Default for Hand {
    /// A hand that holds nothing.
    fn default() -> (r: Hand)
        ensures
            r.holds_nothing(),
    {
        Hand::new()
    }
}

} // verus!
