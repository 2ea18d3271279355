//! Board squares.

use vstd::prelude::*;

verus! {

/// Squares along one side of the board.
pub const BOARD_LEN: u8 = 9;

/// Squares on the board.
pub const NUM_SQUARES: u8 = 81;

/// One of the 81 cells of the board. A square's index is its file plus nine
/// times its rank, file and rank each in `0..9`.
#[derive(Debug, Copy, Clone, PartialEq, Eq, Structural)]
pub struct Square(pub u8);

/// The file of the square with index `i`.
pub open spec fn file_of(i: int) -> int {
    i % 9
}

/// The rank of the square with index `i`.
pub open spec fn rank_of(i: int) -> int {
    i / 9
}

/// Whether `i` is the index of a square of the board.
pub open spec fn on_board(i: int) -> bool {
    0 <= i < 81
}

/// The index of the square on file `f` and rank `r`.
pub open spec fn square_at(f: int, r: int) -> int {
    f + 9 * r
}

/// File `f` and rank `r` name a square of the board.
pub open spec fn in_grid(f: int, r: int) -> bool {
    0 <= f < 9 && 0 <= r < 9
}

/// Every square of the board is the square at its own file and rank, and a
/// file and a rank inside the grid name one square of the board.
pub proof fn lemma_coordinates(i: int)
    requires
        on_board(i),
    ensures
        in_grid(file_of(i), rank_of(i)),
        square_at(file_of(i), rank_of(i)) == i,
{
}

/// The square at file `f` and rank `r` has that file and that rank.
pub proof fn lemma_square_at(f: int, r: int)
    requires
        in_grid(f, r),
    ensures
        on_board(square_at(f, r)),
        file_of(square_at(f, r)) == f,
        rank_of(square_at(f, r)) == r,
{
}

impl Square {
    /// Whether the square lies on the board.
    pub open spec fn valid(self) -> bool {
        self.0 < 81
    }

    /// The square's index as a mathematical integer.
    pub open spec fn index(self) -> int {
        self.0 as int
    }

    /// The square on the given file and rank.
    pub fn new(file: u8, rank: u8) -> (r: Square)
        requires
            file < 9,
            rank < 9,
        ensures
            r.valid(),
            r.index() == square_at(file as int, rank as int),
    {
        Square(file + BOARD_LEN * rank)
    }

    /// Whether the square lies on the board.
    pub fn is_valid(&self) -> (r: bool)
        ensures
            r == self.valid(),
    {
        self.0 < NUM_SQUARES
    }

    /// The square's file, `0..9` for a square of the board.
    pub fn file(&self) -> (r: u8)
        ensures
            r == file_of(self.index()),
    {
        self.0 % BOARD_LEN
    }

    /// The square's rank, `0..9` for a square of the board.
    pub fn rank(&self) -> (r: u8)
        ensures
            r == rank_of(self.index()),
    {
        self.0 / BOARD_LEN
    }

    /// The square's index.
    pub fn raw(&self) -> (r: u8)
        ensures
            r == self.0,
    {
        self.0
    }

    /// The square's index, for indexing.
    pub fn as_usize(&self) -> (r: usize)
        ensures
            r == self.0,
    {
        self.0 as usize
    }

    /// The square's index as a `u16`.
    pub fn as_u16(&self) -> (r: u16)
        ensures
            r == self.0,
    {
        self.0 as u16
    }
}

} // verus!
