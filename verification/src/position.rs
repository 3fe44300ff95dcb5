use vstd::prelude::*;

verus! {

/// A validated coordinate on the 8x8 board.  It maps the range 0..=7 to
/// rows (1..=8) and columns (A-H).  Values are only handed out by the
/// checking factory [`Position::new`], so both coordinates always lie on
/// the board.
#[derive(Debug, Clone, Copy, PartialEq, Eq, Structural, PartialOrd, Ord, Hash)]
pub struct Position {
    pub(crate) row: u8,
    pub(crate) column: u8,
}

impl Position {
    /// Both coordinates lie on the board.
    pub open(crate) spec fn wf(self) -> bool {
        self.row <= 7 && self.column <= 7
    }

    /// The row, as a mathematical integer.
    pub open(crate) spec fn spec_row(self) -> int {
        self.row as int
    }

    /// The column, as a mathematical integer.
    pub open(crate) spec fn spec_col(self) -> int {
        self.column as int
    }

    /// Creates a new position if both the row and the column are within
    /// the range 0..=7, otherwise returns no value.
    pub fn new(row: u8, column: u8) -> (r: Option<Position>)
        ensures
            r is Some <==> (row <= 7 && column <= 7),
            r matches Some(p) ==> p.spec_row() == row && p.spec_col() == column && p.wf(),
    {
        if row <= 7 && column <= 7 {
            Some(Position { row, column })
        } else {
            None
        }
    }

    /// Returns the row of a position.
    pub fn get_row(&self) -> (r: u8)
        ensures
            r == self.spec_row(),
    {
        self.row
    }

    /// Returns the column of a position.
    pub fn get_column(&self) -> (c: u8)
        ensures
            c == self.spec_col(),
    {
        self.column
    }

    /// Returns a tuple of form (row, column).
    pub fn as_tuple(&self) -> (t: (u8, u8))
        ensures
            t.0 == self.spec_row(),
            t.1 == self.spec_col(),
    {
        (self.row, self.column)
    }
}

} // verus!
