use crate::position::Position;
use vstd::prelude::*;

verus! {

/// An ordered pair of squares: where a piece currently stands and where it
/// would go.  Equality and ordering are derived from the pair, so move
/// lists can be sorted and compared deterministically.
#[derive(Debug, Clone, Copy, PartialEq, Eq, Structural, PartialOrd, Ord, Hash)]
pub struct Move {
    pub(crate) current_position: Position,
    pub(crate) end_position: Position,
}

impl Move {
    /// The square the move starts from.
    pub open(crate) spec fn from_pos(self) -> Position {
        self.current_position
    }

    /// The square the move ends on.
    pub open(crate) spec fn to_pos(self) -> Position {
        self.end_position
    }

    /// Both endpoints lie on the board.
    pub open(crate) spec fn wf(self) -> bool {
        self.current_position.wf() && self.end_position.wf()
    }

    /// Creates a move from one square to another.
    pub fn new(from: Position, to: Position) -> (m: Move)
        ensures
            m.from_pos() == from,
            m.to_pos() == to,
    {
        Move { current_position: from, end_position: to }
    }

    /// Returns the square the move ends on.
    pub fn get_end_position(&self) -> (p: Position)
        ensures
            p == self.to_pos(),
    {
        self.end_position
    }

    /// Returns the square the move starts from.
    pub fn get_current_position(&self) -> (p: Position)
        ensures
            p == self.from_pos(),
    {
        self.current_position
    }
}

} // verus!
