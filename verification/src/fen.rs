//! The text notation of a position.
//!
//! A position is written as up to four fields separated by ASCII white space:
//!
//! 1. The placement: groups separated by `/`. The last group written
//!    starts at square 0; each group is read left to right and continues at
//!    the square where the group read before it stopped. In a group, a digit
//!    is a run of that many empty squares, and a letter is a piece: `P` pawn,
//!    `L` lance, `N` knight, `S` silver, `G` gold, `B` bishop, `R` rook, `K`
//!    king; upper case for the first side, lower case for the second. A `+`
//!    directly before the letter of a pawn, lance, knight, silver, bishop or
//!    rook makes that one piece promoted.
//! 2. The side to move: the token `w` for the second side. Any other token
//!    stands for the first side; `b` is the token to write for it.
//! 3. The hands: `-` for two empty hands, else entries, each a letter with
//!    an optional decimal count before it. An entry sets the count of that
//!    category in the hand of the letter's side; without a count it sets 1.
//! 4. The ply number, which may be left out: decimal digits with an optional sign.

use crate::board::Position;
use crate::position::PositionView;
use crate::text::char_to_digit;
use crate::text::digit_value;
use crate::types::hand::MAX_HELD;
use crate::types::piece::can_promote;
use crate::types::piece::is_droppable;
use crate::types::piece::Piece;
use crate::types::piece::GOTE;
use crate::types::piece::SENTE;
use crate::types::square::Square;
use vstd::prelude::*;

verus! {

/// Why a text is not the notation of a position.
#[derive(Debug, Copy, Clone, PartialEq, Eq, Structural)]
pub enum FenError {
    /// The text has no field at all.
    MissingPlacement,
    /// The placement field holds a character that is none of digit, piece
    /// letter, `+` and `/`; a `+` that does not stand directly before the
    /// letter of a piece that may promote; a piece behind the last square; or
    /// a run of empty squares that passes the last square.
    BadPlacement,
    /// The text ends after the placement.
    MissingSideToMove,
    /// The text ends after the side to move.
    MissingHand,
    /// The hand field is not `-` and holds a character that is neither digit
    /// nor piece letter, the letter of a king, a count above 18, or a count
    /// that no letter follows.
    BadHand,
    /// The ply field is not a decimal number between -32768 and 32767.
    BadPly,
}

/// What the notation of a position says.
pub struct FenView {
    /// The placement and the hands.
    pub position: PositionView,
    /// The side to move: 0 for the first side, 1 for the second.
    pub stm: int,
    /// The ply number, if the text gives one.
    pub ply: Option<int>,
}

/// What was read from the notation of a position.
pub struct ParsedFen {
    /// The placement and the hands.
    pub position: Position,
    /// The side to move: 0 for the first side, 1 for the second.
    pub stm: u8,
    /// The ply number, if the text gives one.
    pub ply: Option<i16>,
}

impl View for ParsedFen {
    type V = FenView;

    open spec fn view(&self) -> FenView {
        FenView {
            position: self.position@,
            stm: self.stm as int,
            ply: match self.ply {
                Some(n) => Some(n as int),
                None => None,
            },
        }
    }
}

/// ASCII white space: space, tab, line feed, form feed, carriage return.
pub open spec fn is_space(c: char) -> bool {
    c == ' ' || c == '\t' || c == '\n' || c == '\x0C' || c == '\r'
}

/// The first position at or after `i` that holds no white space, or the
/// text's length.
pub open spec fn skip_spaces(s: Seq<char>, i: int) -> int
    decreases s.len() - i,
{
    if 0 <= i < s.len() && is_space(s[i]) {
        skip_spaces(s, i + 1)
    } else {
        i
    }
}

/// The first position at or after `i` that holds white space, or the text's length.
pub open spec fn token_end(s: Seq<char>, i: int) -> int
    decreases s.len() - i,
{
    if 0 <= i < s.len() && !is_space(s[i]) {
        token_end(s, i + 1)
    } else {
        i
    }
}

/// Where the field number `n` starts, counting from 0; the text's length if
/// there is no such field.
pub open spec fn field_start(s: Seq<char>, n: nat) -> int
    decreases n,
{
    if n == 0 {
        skip_spaces(s, 0)
    } else {
        skip_spaces(s, token_end(s, field_start(s, (n - 1) as nat)))
    }
}

/// The field number `n` of the text, counting from 0, if there is one.
pub open spec fn field(s: Seq<char>, n: nat) -> Option<Seq<char>> {
    let start = field_start(s, n);
    if 0 <= start < s.len() {
        Some(s.subrange(start, token_end(s, start)))
    } else {
        None
    }
}

/// The piece that a letter stands for, unpromoted.
pub open spec fn letter_piece(c: char) -> Option<Piece> {
    if c == 'P' {
        Some(Piece { kind: 0, side: 0 })
    } else if c == 'L' {
        Some(Piece { kind: 1, side: 0 })
    } else if c == 'N' {
        Some(Piece { kind: 2, side: 0 })
    } else if c == 'S' {
        Some(Piece { kind: 3, side: 0 })
    } else if c == 'B' {
        Some(Piece { kind: 4, side: 0 })
    } else if c == 'R' {
        Some(Piece { kind: 5, side: 0 })
    } else if c == 'G' {
        Some(Piece { kind: 6, side: 0 })
    } else if c == 'K' {
        Some(Piece { kind: 7, side: 0 })
    } else if c == 'p' {
        Some(Piece { kind: 0, side: 1 })
    } else if c == 'l' {
        Some(Piece { kind: 1, side: 1 })
    } else if c == 'n' {
        Some(Piece { kind: 2, side: 1 })
    } else if c == 's' {
        Some(Piece { kind: 3, side: 1 })
    } else if c == 'b' {
        Some(Piece { kind: 4, side: 1 })
    } else if c == 'r' {
        Some(Piece { kind: 5, side: 1 })
    } else if c == 'g' {
        Some(Piece { kind: 6, side: 1 })
    } else if c == 'k' {
        Some(Piece { kind: 7, side: 1 })
    } else {
        None
    }
}

/// How far the placement has been read.
pub struct PlacementState {
    /// What has been placed.
    pub pos: PositionView,
    /// The square that the next piece or run starts at.
    pub next: int,
    /// Whether a `+` waits for its letter.
    pub pending: bool,
}

/// The state after one more character of a group, or `None` where the
/// character is malformed there.
pub open spec fn placement_step(st: PlacementState, c: char) -> Option<PlacementState> {
    if c == '+' {
        if st.pending {
            None
        } else {
            Some(PlacementState { pos: st.pos, next: st.next, pending: true })
        }
    } else if letter_piece(c) is Some {
        let p = letter_piece(c)->0;
        if st.next >= 81 {
            None
        } else if !st.pending {
            Some(
                PlacementState { pos: st.pos.add_piece(st.next, p), next: st.next + 1, pending: false },
            )
        } else if can_promote(p.kind as int) {
            Some(
                PlacementState {
                    pos: st.pos.add_piece(st.next, Piece { kind: (p.kind + 8) as u8, side: p.side }),
                    next: st.next + 1,
                    pending: false,
                },
            )
        } else {
            None
        }
    } else if digit_value(c) is Some {
        if st.pending || st.next + digit_value(c)->0 > 81 {
            None
        } else {
            Some(PlacementState { pos: st.pos, next: st.next + digit_value(c)->0, pending: false })
        }
    } else {
        None
    }
}

/// The state after the first `k` characters of the group `g`.
pub open spec fn group_run(st: PlacementState, g: Seq<char>, k: int) -> Option<PlacementState>
    decreases k,
{
    if k <= 0 {
        Some(st)
    } else {
        match group_run(st, g, k - 1) {
            None => None,
            Some(prev) => placement_step(prev, g[k - 1]),
        }
    }
}

/// The state after the whole group `g`. A `+` must have found its letter by
/// the group's end.
pub open spec fn parse_group(st: PlacementState, g: Seq<char>) -> Option<PlacementState> {
    match group_run(st, g, g.len() as int) {
        None => None,
        Some(end) => if end.pending {
            None
        } else {
            Some(end)
        },
    }
}

/// Where the group starts that ends before position `hi`.
pub open spec fn group_start(t: Seq<char>, hi: int) -> int
    decreases hi,
{
    if hi <= 0 || t[hi - 1] == '/' {
        hi
    } else {
        group_start(t, hi - 1)
    }
}

/// The state after the groups of `t` that end at or before `hi`, read from
/// the last of them to the first.
pub open spec fn parse_groups(st: PlacementState, t: Seq<char>, hi: int) -> Option<PlacementState>
    decreases hi,
{
    let lo = group_start(t, hi);
    match parse_group(st, t.subrange(lo, hi)) {
        None => None,
        Some(after) => if 0 < lo <= hi {
            parse_groups(after, t, lo - 1)
        } else {
            Some(after)
        },
    }
}

/// The placement that the field `t` describes, on an otherwise empty position.
pub open spec fn parse_placement(t: Seq<char>) -> Option<PositionView> {
    match parse_groups(
        PlacementState { pos: PositionView::empty(), next: 0, pending: false },
        t,
        t.len() as int,
    ) {
        None => None,
        Some(end) => Some(end.pos),
    }
}

/// How far the hands have been read.
pub struct HandState {
    /// The position with the hands as read so far.
    pub pos: PositionView,
    /// The count that waits for its letter, if digits were read.
    pub count: Option<int>,
}

/// The state after one more character of the hand field, or `None` where
/// the character is malformed there.
pub open spec fn hand_step(st: HandState, c: char) -> Option<HandState> {
    if digit_value(c) is Some {
        let before = match st.count {
            Some(n) => n,
            None => 0,
        };
        let n = 10 * before + digit_value(c)->0;
        if n > 18 {
            None
        } else {
            Some(HandState { pos: st.pos, count: Some(n) })
        }
    } else if letter_piece(c) is Some {
        let p = letter_piece(c)->0;
        let n = match st.count {
            Some(n) => n,
            None => 1,
        };
        if is_droppable(p.kind as int) {
            Some(
                HandState { pos: st.pos.set_hand(p.side as int, p.kind as int, n as u8), count: None },
            )
        } else {
            None
        }
    } else {
        None
    }
}

/// The state after the first `k` characters of the hand field `t`.
pub open spec fn hand_run(st: HandState, t: Seq<char>, k: int) -> Option<HandState>
    decreases k,
{
    if k <= 0 {
        Some(st)
    } else {
        match hand_run(st, t, k - 1) {
            None => None,
            Some(prev) => hand_step(prev, t[k - 1]),
        }
    }
}

/// The position `pos` with the hands that the field `t` describes.
pub open spec fn parse_hand(pos: PositionView, t: Seq<char>) -> Option<PositionView> {
    if t == seq!['-'] {
        Some(pos)
    } else {
        match hand_run(HandState { pos, count: None }, t, t.len() as int) {
            None => None,
            Some(end) => if end.count is None {
                Some(end.pos)
            } else {
                None
            },
        }
    }
}

/// The number that the first `k` characters of `t` spell, if all are digits.
pub open spec fn digits_run(t: Seq<char>, k: int) -> Option<int>
    decreases k,
{
    if k <= 0 {
        Some(0)
    } else {
        match digits_run(t, k - 1) {
            None => None,
            Some(v) => match digit_value(t[k - 1]) {
                None => None,
                Some(d) => Some(10 * v + d),
            },
        }
    }
}

/// The ply number that the field `t` spells: an optional `+` or `-`, then
/// one digit or more; `None` if `t` is not of that form or the number does
/// not fit in 16 bits with sign.
pub open spec fn parse_ply(t: Seq<char>) -> Option<int> {
    let signed = t.len() > 0 && (t[0] == '-' || t[0] == '+');
    let negative = t.len() > 0 && t[0] == '-';
    let digits = if signed {
        t.subrange(1, t.len() as int)
    } else {
        t
    };
    if digits.len() == 0 {
        None
    } else {
        match digits_run(digits, digits.len() as int) {
            None => None,
            Some(v) => {
                let n = if negative {
                    -v
                } else {
                    v
                };
                if -32768 <= n <= 32767 {
                    Some(n)
                } else {
                    None
                }
            },
        }
    }
}

/// The side to move that the field `t` names: the second side for `w`,
/// the first side for anything else.
pub open spec fn parse_side(t: Seq<char>) -> int {
    if t == seq!['w'] {
        1
    } else {
        0
    }
}

/// What the text `s` says, or why it is not the notation of a position.
/// The fields are looked at in their order, and the first fault found is
/// the one reported. Fields after the fourth are not looked at.
pub open spec fn parse_fen(s: Seq<char>) -> Result<FenView, FenError> {
    if field(s, 0) is None {
        Err(FenError::MissingPlacement)
    } else if parse_placement(field(s, 0)->0) is None {
        Err(FenError::BadPlacement)
    } else if field(s, 1) is None {
        Err(FenError::MissingSideToMove)
    } else if field(s, 2) is None {
        Err(FenError::MissingHand)
    } else if parse_hand(parse_placement(field(s, 0)->0)->0, field(s, 2)->0) is None {
        Err(FenError::BadHand)
    } else if field(s, 3) is Some && parse_ply(field(s, 3)->0) is None {
        Err(FenError::BadPly)
    } else {
        Ok(
            FenView {
                position: parse_hand(parse_placement(field(s, 0)->0)->0, field(s, 2)->0)->0,
                stm: parse_side(field(s, 1)->0),
                ply: if field(s, 3) is Some {
                    parse_ply(field(s, 3)->0)
                } else {
                    None
                },
            },
        )
    }
}

/// Once a group has gone wrong, it stays wrong.
proof fn lemma_group_run_fails(st: PlacementState, g: Seq<char>, k: int, n: int)
    requires
        0 <= k <= n,
        group_run(st, g, k) is None,
    ensures
        group_run(st, g, n) is None,
    decreases n,
{
    if k < n {
        lemma_group_run_fails(st, g, k, n - 1);
    }
}

/// Once the hand field has gone wrong, it stays wrong.
proof fn lemma_hand_run_fails(st: HandState, t: Seq<char>, k: int, n: int)
    requires
        0 <= k <= n,
        hand_run(st, t, k) is None,
    ensures
        hand_run(st, t, n) is None,
    decreases n,
{
    if k < n {
        lemma_hand_run_fails(st, t, k, n - 1);
    }
}

/// A run of digits only grows; once it is not a number, it stays none.
proof fn lemma_digits_run_grows(t: Seq<char>, k: int, n: int)
    requires
        0 <= k <= n,
    ensures
        digits_run(t, k) is None ==> digits_run(t, n) is None,
        digits_run(t, n) is Some ==> digits_run(t, k) is Some && 0 <= digits_run(t, k)->0
            <= digits_run(t, n)->0,
    decreases n,
{
    if k < n {
        lemma_digits_run_grows(t, k, n - 1);
    } else {
        lemma_digits_run_grows_zero(t, k);
    }
}

proof fn lemma_digits_run_grows_zero(t: Seq<char>, k: int)
    requires
        0 <= k,
    ensures
        digits_run(t, k) is Some ==> 0 <= digits_run(t, k)->0,
    decreases k,
{
    if k > 0 {
        lemma_digits_run_grows_zero(t, k - 1);
    }
}

/// Whether `c` is ASCII white space.
pub fn is_space_char(c: char) -> (r: bool)
    ensures
        r == is_space(c),
{
    c == ' ' || c == '\t' || c == '\n' || c == '\x0C' || c == '\r'
}

/// The piece that a letter stands for, unpromoted.
pub fn piece_of_letter(c: char) -> (r: Option<Piece>)
    ensures
        r == letter_piece(c),
        r is Some ==> r->0.valid() && r->0.kind < 8,
{
    if c == 'P' {
        Some(Piece { kind: 0, side: SENTE })
    } else if c == 'L' {
        Some(Piece { kind: 1, side: SENTE })
    } else if c == 'N' {
        Some(Piece { kind: 2, side: SENTE })
    } else if c == 'S' {
        Some(Piece { kind: 3, side: SENTE })
    } else if c == 'B' {
        Some(Piece { kind: 4, side: SENTE })
    } else if c == 'R' {
        Some(Piece { kind: 5, side: SENTE })
    } else if c == 'G' {
        Some(Piece { kind: 6, side: SENTE })
    } else if c == 'K' {
        Some(Piece { kind: 7, side: SENTE })
    } else if c == 'p' {
        Some(Piece { kind: 0, side: GOTE })
    } else if c == 'l' {
        Some(Piece { kind: 1, side: GOTE })
    } else if c == 'n' {
        Some(Piece { kind: 2, side: GOTE })
    } else if c == 's' {
        Some(Piece { kind: 3, side: GOTE })
    } else if c == 'b' {
        Some(Piece { kind: 4, side: GOTE })
    } else if c == 'r' {
        Some(Piece { kind: 5, side: GOTE })
    } else if c == 'g' {
        Some(Piece { kind: 6, side: GOTE })
    } else if c == 'k' {
        Some(Piece { kind: 7, side: GOTE })
    } else {
        None
    }
}

/// The characters of `s` from position `lo` up to, not including, position `hi`.
pub fn slice_of(s: &Vec<char>, lo: usize, hi: usize) -> (r: Vec<char>)
    requires
        lo <= hi <= s@.len(),
    ensures
        r@ == s@.subrange(lo as int, hi as int),
{
    let mut out: Vec<char> = Vec::new();
    let mut i: usize = lo;
    while i < hi
        invariant
            lo <= i <= hi <= s@.len(),
            out@ == s@.subrange(lo as int, i as int),
        decreases hi - i,
    {
        out.push(s[i]);
        i += 1;
        proof {
            assert(out@ =~= s@.subrange(lo as int, i as int));
        }
    }
    out
}

/// The bounds of the next field at or after position `i`: where it starts
/// and where it ends. Both are the text's length if no field is left.
pub fn next_field(s: &Vec<char>, i: usize) -> (r: (usize, usize))
    requires
        i <= s@.len(),
    ensures
        r.0 == skip_spaces(s@, i as int),
        r.1 == token_end(s@, r.0 as int),
        i <= r.0 <= r.1 <= s@.len(),
        r.0 < s@.len() ==> r.0 < r.1,
{
    let mut start: usize = i;
    while start < s.len() && is_space_char(s[start])
        invariant
            i <= start <= s@.len(),
            skip_spaces(s@, i as int) == skip_spaces(s@, start as int),
        decreases s@.len() - start,
    {
        start += 1;
    }
    let mut end: usize = start;
    while end < s.len() && !is_space_char(s[end])
        invariant
            start <= end <= s@.len(),
            token_end(s@, start as int) == token_end(s@, end as int),
            start < s@.len() ==> !is_space(s@[start as int]),
        decreases s@.len() - end,
    {
        end += 1;
    }
    (start, end)
}

/// Reads one group of the placement field into `pos`, starting at the
/// square `next`. Returns the square after the group, or `None` where the
/// group is malformed.
#[verifier::loop_isolation(false)]
fn read_group(pos: &mut Position, next: u8, g: &Vec<char>) -> (r: Option<u8>)
    requires
        old(pos)@.wf(),
        next <= 81,
        forall|s: int| next <= s < 81 ==> old(pos)@.piece_at(s).is_none(),
    ensures
        match parse_group(PlacementState { pos: old(pos)@, next: next as int, pending: false }, g@) {
            None => r is None,
            Some(end) => r is Some && r->0 as int == end.next && final(pos)@ == end.pos,
        },
        final(pos)@.wf(),
        r is Some ==> next <= r->0 <= 81 && forall|s: int|
            r->0 <= s < 81 ==> final(pos)@.piece_at(s).is_none(),
{
    let ghost start = PlacementState { pos: old(pos)@, next: next as int, pending: false };
    let mut at: u8 = next;
    let mut pending = false;
    let mut k: usize = 0;
    while k < g.len()
        invariant
            k <= g@.len(),
            next <= at <= 81,
            pos@.wf(),
            forall|s: int| at <= s < 81 ==> pos@.piece_at(s).is_none(),
            group_run(start, g@, k as int) == Some(
                PlacementState { pos: pos@, next: at as int, pending },
            ),
        decreases g@.len() - k,
    {
        let c = g[k];
        let ghost here = PlacementState { pos: pos@, next: at as int, pending };
        proof {
            assert(group_run(start, g@, k + 1) == placement_step(here, c));
            if placement_step(here, c) is None {
                lemma_group_run_fails(start, g@, k + 1, g@.len() as int);
            }
        }
        if c == '+' {
            if pending {
                return None;
            }
            pending = true;
        } else {
            match piece_of_letter(c) {
                Some(p) => {
                    if at >= 81 {
                        return None;
                    }
                    let ghost before = pos@;
                    proof {
                        assert forall|s: int| at + 1 <= s < 81 implies before.mailbox[s].is_none() by {
                            assert(before.piece_at(s).is_none());
                        }
                    }
                    if !pending {
                        pos.add_piece(Square(at), p);
                    } else if p.kind < 6 {
                        pos.add_piece(Square(at), p.promoted());
                    } else {
                        return None;
                    }
                    at += 1;
                    pending = false;
                },
                None => {
                    match char_to_digit(c) {
                        Some(d) => {
                            if pending || at + d > 81 {
                                return None;
                            }
                            at += d;
                        },
                        None => {
                            return None;
                        },
                    }
                },
            }
        }
        k += 1;
    }
    if pending {
        None
    } else {
        Some(at)
    }
}

/// Where the group starts that ends before position `hi`.
fn find_group_start(t: &Vec<char>, hi: usize) -> (lo: usize)
    requires
        hi <= t@.len(),
    ensures
        lo == group_start(t@, hi as int),
        lo <= hi,
{
    let mut lo: usize = hi;
    while lo > 0 && t[lo - 1] != '/'
        invariant
            lo <= hi <= t@.len(),
            group_start(t@, hi as int) == group_start(t@, lo as int),
        decreases lo,
    {
        lo -= 1;
    }
    lo
}

/// Reads the placement field into a new position.
#[verifier::loop_isolation(false)]
pub fn read_placement(t: &Vec<char>) -> (r: Option<Position>)
    ensures
        match parse_placement(t@) {
            None => r is None,
            Some(v) => r is Some && r->0@ == v,
        },
        r is Some ==> r->0@.wf(),
{
    let mut pos = Position::new();
    let ghost start = PlacementState { pos: PositionView::empty(), next: 0, pending: false };
    let mut next: u8 = 0;
    let mut hi: usize = t.len();
    loop
        invariant
            hi <= t@.len(),
            next <= 81,
            pos@.wf(),
            forall|s: int| next <= s < 81 ==> pos@.piece_at(s).is_none(),
            parse_groups(start, t@, t@.len() as int) == parse_groups(
                PlacementState { pos: pos@, next: next as int, pending: false },
                t@,
                hi as int,
            ),
        decreases hi,
    {
        let lo = find_group_start(t, hi);
        let group = slice_of(t, lo, hi);
        match read_group(&mut pos, next, &group) {
            None => {
                return None;
            },
            Some(after) => {
                next = after;
            },
        }
        if lo == 0 {
            return Some(pos);
        }
        hi = lo - 1;
    }
}

/// Reads the hand field into the hands of `pos`. Returns whether the field
/// is well formed; `pos` is changed only as far as the field was read.
#[verifier::loop_isolation(false)]
pub fn read_hand(pos: &mut Position, t: &Vec<char>) -> (r: bool)
    requires
        old(pos)@.wf(),
    ensures
        match parse_hand(old(pos)@, t@) {
            None => !r,
            Some(v) => r && final(pos)@ == v,
        },
        final(pos)@.wf(),
{
    if t.len() == 1 && t[0] == '-' {
        proof {
            assert(t@ =~= seq!['-']);
        }
        return true;
    }
    proof {
        if t@ == seq!['-'] {
            assert(t@.len() == 1 && t@[0] == '-');
        }
    }
    let ghost start = HandState { pos: old(pos)@, count: None };
    let mut count: Option<u8> = None;
    let mut k: usize = 0;
    while k < t.len()
        invariant
            k <= t@.len(),
            pos@.wf(),
            count is Some ==> count->0 <= 18,
            hand_run(start, t@, k as int) == Some(
                HandState {
                    pos: pos@,
                    count: match count {
                        Some(n) => Some(n as int),
                        None => None,
                    },
                },
            ),
        decreases t@.len() - k,
    {
        let c = t[k];
        let ghost here = HandState {
            pos: pos@,
            count: match count {
                Some(n) => Some(n as int),
                None => None,
            },
        };
        proof {
            assert(hand_run(start, t@, k + 1) == hand_step(here, c));
            if hand_step(here, c) is None {
                lemma_hand_run_fails(start, t@, k + 1, t@.len() as int);
            }
        }
        match char_to_digit(c) {
            Some(d) => {
                let before: u8 = match count {
                    Some(n) => n,
                    None => 0,
                };
                let n: u8 = 10 * before + d;
                if n > MAX_HELD {
                    return false;
                }
                count = Some(n);
            },
            None => {
                match piece_of_letter(c) {
                    Some(p) => {
                        if p.kind >= 7 {
                            return false;
                        }
                        let n: u8 = match count {
                            Some(n) => n,
                            None => 1,
                        };
                        pos.set_hand(p, n);
                        count = None;
                    },
                    None => {
                        return false;
                    },
                }
            },
        }
        k += 1;
    }
    count.is_none()
}

/// Reads the ply field.
#[verifier::loop_isolation(false)]
pub fn read_ply(t: &Vec<char>) -> (r: Option<i16>)
    ensures
        match parse_ply(t@) {
            None => r is None,
            Some(n) => r == Some(n as i16) && -32768 <= n <= 32767,
        },
{
    let signed = t.len() > 0 && (t[0] == '-' || t[0] == '+');
    let negative = t.len() > 0 && t[0] == '-';
    let first: usize = if signed {
        1
    } else {
        0
    };
    let digits = slice_of(t, first, t.len());
    proof {
        assert(t@.subrange(0, t@.len() as int) =~= t@);
    }
    if digits.len() == 0 {
        return None;
    }
    let mut value: i32 = 0;
    let mut k: usize = 0;
    while k < digits.len()
        invariant
            k <= digits@.len(),
            0 <= value <= 32768,
            digits_run(digits@, k as int) == Some(value as int),
        decreases digits@.len() - k,
    {
        proof {
            lemma_digits_run_grows(digits@, k + 1, digits@.len() as int);
        }
        match char_to_digit(digits[k]) {
            None => {
                return None;
            },
            Some(d) => {
                value = 10 * value + d as i32;
                if value > 32768 {
                    return None;
                }
            },
        }
        k += 1;
    }
    let n: i32 = if negative {
        -value
    } else {
        value
    };
    if n > 32767 {
        None
    } else {
        Some(n as i16)
    }
}

/// Reads the notation of a position.
pub fn read_fen(s: &Vec<char>) -> (r: Result<ParsedFen, FenError>)
    ensures
        match parse_fen(s@) {
            Ok(v) => r is Ok && r->Ok_0@ == v,
            Err(e) => r == Err::<ParsedFen, FenError>(e),
        },
        r is Ok ==> r->Ok_0.position@.wf() && r->Ok_0.stm < 2,
{
    let (placement_start, placement_end) = next_field(s, 0);
    if placement_start >= s.len() {
        return Err(FenError::MissingPlacement);
    }
    let placement = slice_of(s, placement_start, placement_end);
    let mut position = match read_placement(&placement) {
        None => {
            return Err(FenError::BadPlacement);
        },
        Some(position) => position,
    };
    let (side_start, side_end) = next_field(s, placement_end);
    if side_start >= s.len() {
        return Err(FenError::MissingSideToMove);
    }
    let side = slice_of(s, side_start, side_end);
    let stm: u8 = if side.len() == 1 && side[0] == 'w' {
        1
    } else {
        0
    };
    proof {
        if side@.len() == 1 && side@[0] == 'w' {
            assert(side@ =~= seq!['w']);
        }
    }
    let (hand_start, hand_end) = next_field(s, side_end);
    if hand_start >= s.len() {
        return Err(FenError::MissingHand);
    }
    let hand = slice_of(s, hand_start, hand_end);
    if !read_hand(&mut position, &hand) {
        return Err(FenError::BadHand);
    }
    let (ply_start, ply_end) = next_field(s, hand_end);
    let ply: Option<i16> = if ply_start < s.len() {
        let number = slice_of(s, ply_start, ply_end);
        match read_ply(&number) {
            None => {
                return Err(FenError::BadPly);
            },
            Some(n) => Some(n),
        }
    } else {
        None
    };
    proof {
        reveal_with_fuel(field_start, 4);
    }
    Ok(ParsedFen { position, stm, ply })
}

} // verus!
