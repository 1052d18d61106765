//! One cell of the board.

use vstd::prelude::*;

verus! {

/// The state of one cell.
///
/// `mines_around` is meaningful only where `has_mine` is false.
#[derive(Clone, Copy, Debug, PartialEq, Eq, Structural)]
pub struct Cell {
    pub revealed: bool,
    pub flagged: bool,
    pub has_mine: bool,
    pub mines_around: u8,
}

/// What revealing a cell did besides marking it revealed.
#[derive(Clone, Copy, Debug, PartialEq, Eq, Structural)]
pub struct CellReveal {
    /// The cell carried a flag, which was taken off.
    pub flag_cleared: bool,
    /// The cell carries a mine.
    pub hit_mine: bool,
}

impl Cell {
    /// A hidden cell without flag or mine.
    pub fn new() -> (cell: Cell)
        ensures
            cell == (Cell { revealed: false, flagged: false, has_mine: false, mines_around: 0 }),
    {
        Cell { revealed: false, flagged: false, has_mine: false, mines_around: 0 }
    }

    /// A cascade may open this cell: it is hidden and carries no mine.
    pub fn should_reveal(&self) -> (yes: bool)
        ensures
            yes == (!self.has_mine && !self.revealed),
    {
        !self.has_mine && !self.revealed
    }

    /// Marks the cell revealed and takes its flag off. The result says whether
    /// there was a flag, and whether the cell carries a mine.
    pub fn reveal_cell(&mut self) -> (out: CellReveal)
        ensures
            *final(self) == (Cell { revealed: true, flagged: false, ..*old(self) }),
            out == (CellReveal { flag_cleared: old(self).flagged, hit_mine: old(self).has_mine }),
    {
        let out = CellReveal { flag_cleared: self.flagged, hit_mine: self.has_mine };
        self.revealed = true;
        self.flagged = false;
        out
    }
}

} // verus!
