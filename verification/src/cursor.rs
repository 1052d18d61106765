//! The selection cursor: one step in a direction, wrapping at the edges of
//! the board.

use crate::grid::col_of;
use crate::grid::in_board;
use crate::grid::index_at;
use crate::grid::lemma_coords;
use crate::grid::lemma_index_at;
use crate::grid::one_d_to_two_d;
use crate::grid::row_of;
use crate::grid::two_d_to_one_d;
use crate::input::DOWN;
use crate::input::LEFT;
use crate::input::RIGHT;
use crate::input::UP;
use vstd::prelude::*;

verus! {

/// The position after `v` on a ring of `side` positions.
pub open spec fn ring_next(side: int, v: int) -> int {
    if v + 1 == side {
        0
    } else {
        v + 1
    }
}

/// The position before `v` on a ring of `side` positions.
pub open spec fn ring_prev(side: int, v: int) -> int {
    if v == 0 {
        side - 1
    } else {
        v - 1
    }
}

/// The cell that the selection moves to when `button` fires. A direction
/// moves it by one column within its row, or by one row within its column,
/// from the last position round to the first and back. Any other button
/// leaves it where it is.
pub open spec fn moved(side: int, selection: int, button: int) -> int {
    let x = col_of(side, selection);
    let y = row_of(side, selection);
    if button == RIGHT {
        index_at(side, ring_next(side, x), y)
    } else if button == LEFT {
        index_at(side, ring_prev(side, x), y)
    } else if button == UP {
        index_at(side, x, ring_prev(side, y))
    } else if button == DOWN {
        index_at(side, x, ring_next(side, y))
    } else {
        selection
    }
}

/// A move keeps the selection on the board. A move to the left or right
/// keeps the row and steps to the column before or after on the ring of
/// columns; a move up or down keeps the column and steps on the ring of rows.
pub proof fn lemma_moved(side: int, selection: int, button: int)
    requires
        in_board(side, selection),
    ensures
        in_board(side, moved(side, selection, button)),
        button == RIGHT ==> row_of(side, moved(side, selection, button)) == row_of(side, selection)
            && col_of(side, moved(side, selection, button)) == ring_next(
            side,
            col_of(side, selection),
        ),
        button == LEFT ==> row_of(side, moved(side, selection, button)) == row_of(side, selection)
            && col_of(side, moved(side, selection, button)) == ring_prev(
            side,
            col_of(side, selection),
        ),
        button == UP ==> col_of(side, moved(side, selection, button)) == col_of(side, selection)
            && row_of(side, moved(side, selection, button)) == ring_prev(
            side,
            row_of(side, selection),
        ),
        button == DOWN ==> col_of(side, moved(side, selection, button)) == col_of(side, selection)
            && row_of(side, moved(side, selection, button)) == ring_next(
            side,
            row_of(side, selection),
        ),
{
    lemma_coords(side, selection);
    let x = col_of(side, selection);
    let y = row_of(side, selection);
    if button == RIGHT {
        lemma_index_at(side, ring_next(side, x), y);
    } else if button == LEFT {
        lemma_index_at(side, ring_prev(side, x), y);
    } else if button == UP {
        lemma_index_at(side, x, ring_prev(side, y));
    } else if button == DOWN {
        lemma_index_at(side, x, ring_next(side, y));
    }
}

/// Moves the selection as `button` asks.
pub fn move_selection(selection: usize, side: usize, button: usize) -> (next: usize)
    requires
        in_board(side as int, selection as int),
        side * side <= usize::MAX,
    ensures
        next == moved(side as int, selection as int, button as int),
        in_board(side as int, next as int),
{
    proof {
        lemma_moved(side as int, selection as int, button as int);
        lemma_coords(side as int, selection as int);
    }
    let (x, y) = one_d_to_two_d(selection, side);
    if button == RIGHT {
        let nx: usize = if x + 1 == side {
            0
        } else {
            x + 1
        };
        two_d_to_one_d(nx, y, side)
    } else if button == LEFT {
        let nx: usize = if x == 0 {
            side - 1
        } else {
            x - 1
        };
        two_d_to_one_d(nx, y, side)
    } else if button == UP {
        let ny: usize = if y == 0 {
            side - 1
        } else {
            y - 1
        };
        two_d_to_one_d(x, ny, side)
    } else if button == DOWN {
        let ny: usize = if y + 1 == side {
            0
        } else {
            y + 1
        };
        two_d_to_one_d(x, ny, side)
    } else {
        selection
    }
}

} // verus!
