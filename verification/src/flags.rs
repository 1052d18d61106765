//! Setting and clearing flags, and the test for a win.
//!
//! A flag takes one unit of a budget that starts at the number of mines;
//! clearing the flag gives the unit back. The game is won when the flags
//! cover the mines exactly.

use crate::cell::Cell;
use crate::count::count_true;
use crate::count::lemma_count_monotone;
use crate::count::lemma_count_tight;
use crate::count::lemma_count_update;
use crate::count::marks_within;
use crate::field::Field;
use crate::field::FieldState;
use vstd::prelude::*;

verus! {

impl FieldState {
    /// A flag action on cell `index` sets a flag: the cell is hidden, has no
    /// flag, and the budget is not used up.
    pub open spec fn takes_flag(self, index: int) -> bool {
        !self.cells[index].revealed && !self.cells[index].flagged && self.flags_left > 0
    }

    /// The state after a flag action on cell `index`. A revealed cell stays
    /// as it is; a flag is cleared, and its unit returns to the budget; a
    /// hidden cell without a flag gets one if the budget has a unit left.
    pub open spec fn after_flag(self, index: int) -> FieldState {
        let cell = self.cells[index];
        if cell.revealed {
            self
        } else if cell.flagged {
            FieldState {
                cells: self.cells.update(index, Cell { flagged: false, ..cell }),
                flags_left: self.flags_left + 1,
                ..self
            }
        } else if self.flags_left > 0 {
            FieldState {
                cells: self.cells.update(index, Cell { flagged: true, ..cell }),
                flags_left: (self.flags_left - 1) as nat,
                ..self
            }
        } else {
            self
        }
    }

    /// Every mine carries a flag.
    pub open spec fn all_mines_flagged(self) -> bool {
        forall|i: int|
            0 <= i < self.cells.len() && (#[trigger] self.cells[i]).has_mine
                ==> self.cells[i].flagged
    }
}

impl Field {
    /// Toggles the flag of the cell at `index`, as `FieldState::after_flag`
    /// says. Returns whether a flag was set.
    pub fn flag_from_index(&mut self, index: usize) -> (placed: bool)
        requires
            old(self).wf(),
            index < old(self)@.cells.len(),
        ensures
            final(self).wf(),
            final(self)@.same_board(old(self)@),
            final(self)@ == old(self)@.after_flag(index as int),
            placed == old(self)@.takes_flag(index as int),
    {
        let mut cell: Cell = self.cells[index];
        if cell.revealed {
            return false;
        }
        let placed: bool = !cell.flagged && self.flags_left > 0;
        proof {
            lemma_count_update(self@.flagged(), index as int, !cell.flagged);
        }
        if cell.flagged {
            cell.flagged = false;
            self.flags_left = self.flags_left + 1;
        } else if self.flags_left > 0 {
            cell.flagged = true;
            self.flags_left = self.flags_left - 1;
        } else {
            return false;
        }
        self.cells[index] = cell;
        proof {
            assert(self@.mines() =~= old(self)@.mines());
            assert(self@.revealed() =~= old(self)@.revealed());
            assert(self@.flagged() =~= old(self)@.flagged().update(
                index as int,
                !old(self)@.cells[index as int].flagged,
            ));
        }
        placed
    }

    /// Tests whether every mine carries a flag.
    pub fn all_mines_flagged(&self) -> (all: bool)
        ensures
            all == self@.all_mines_flagged(),
    {
        let mut i: usize = 0;
        while i < self.cells.len()
            invariant
                i <= self@.cells.len(),
                forall|j: int|
                    0 <= j < i && (#[trigger] self@.cells[j]).has_mine ==> self@.cells[j].flagged,
            decreases self@.cells.len() - i,
        {
            if self.cells[i].has_mine && !self.cells[i].flagged {
                return false;
            }
            i = i + 1;
        }
        true
    }
}

/// On a well-formed field every mine carries a flag if and only if the flags
/// cover the mines exactly; the budget is then used up.
pub proof fn lemma_win_condition(state: FieldState)
    requires
        state.valid(),
    ensures
        state.all_mines_flagged() <==> state.flagged() == state.mines(),
        state.all_mines_flagged() ==> state.flags_left == 0,
{
    if state.all_mines_flagged() {
        assert(marks_within(state.mines(), state.flagged()));
        lemma_count_monotone(state.mines(), state.flagged());
        lemma_count_tight(state.mines(), state.flagged());
    }
    if state.flagged() == state.mines() {
        assert forall|i: int| 0 <= i < state.cells.len() && (
        #[trigger] state.cells[i]).has_mine implies state.cells[i].flagged by {
            assert(state.flagged()[i] == state.mines()[i]);
        }
    }
}

/// On a well-formed field no flag can be set once as many flags stand as
/// there are mines, and a flag action never leaves more flags than mines.
pub proof fn lemma_flag_keeps_budget(state: FieldState, index: int)
    requires
        state.valid(),
        0 <= index < state.cells.len(),
    ensures
        state.after_flag(index).flags_left <= state.mine_count,
        state.after_flag(index).flags_left + count_true(state.after_flag(index).flagged())
            == state.mine_count,
{
    let next: FieldState = state.after_flag(index);
    if next != state {
        lemma_count_update(state.flagged(), index, !state.cells[index].flagged);
        assert(next.flagged() =~= state.flagged().update(index, !state.cells[index].flagged));
    }
}

} // verus!
