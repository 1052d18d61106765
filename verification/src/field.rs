//! The mine field: the grid of cells and the flag budget.

use crate::board::adjacent_mines;
use crate::board::lemma_adjacent_mines_range;
use crate::board::mine_at;
use crate::cell::Cell;
use crate::count::count_true;
use crate::count::lemma_count_push;
use crate::count::lemma_count_zero;
use crate::grid::adjacent;
use crate::grid::lemma_coords;
use crate::grid::lemma_index_at;
use crate::grid::one_d_to_two_d;
use crate::grid::two_d_to_one_d;
use vstd::prelude::*;

verus! {

/// Why a board cannot be built.
#[derive(Clone, Copy, Debug, PartialEq, Eq, Structural)]
pub enum ConfigError {
    /// The board has no cell that is free of a mine.
    TooManyMines,
    /// The layout does not have one entry for each cell of the board.
    LayoutSize,
}

/// The mathematical state of a mine field.
pub struct FieldState {
    /// Cells in a row, and rows.
    pub side: nat,
    /// The cells in row-major order.
    pub cells: Seq<Cell>,
    /// The number of mines that the field was made with.
    pub mine_count: nat,
    /// Flags that may still be set.
    pub flags_left: nat,
}

impl FieldState {
    /// Where the mines lie.
    pub open spec fn mines(self) -> Seq<bool> {
        Seq::new(self.cells.len(), |i: int| self.cells[i].has_mine)
    }

    /// Which cells are revealed.
    pub open spec fn revealed(self) -> Seq<bool> {
        Seq::new(self.cells.len(), |i: int| self.cells[i].revealed)
    }

    /// Which cells carry a flag.
    pub open spec fn flagged(self) -> Seq<bool> {
        Seq::new(self.cells.len(), |i: int| self.cells[i].flagged)
    }

    /// Every cell without a mine stores the number of mines around it; a cell
    /// with a mine stores zero.
    pub open spec fn counted(self) -> bool {
        forall|i: int|
            0 <= i < self.cells.len() ==> (#[trigger] self.cells[i]).mines_around == if self.cells[i]
                .has_mine {
                0
            } else {
                adjacent_mines(self.side as int, self.mines(), i)
            }
    }

    /// The grid is square, holds exactly `mine_count` mines and at least one
    /// free cell, the flags on the grid and the flags left add up to
    /// `mine_count`, and a revealed cell has neither flag nor mine.
    pub open spec fn shaped(self) -> bool {
        &&& self.side > 0
        &&& self.cells.len() == self.side * self.side
        &&& self.mine_count == count_true(self.mines())
        &&& self.mine_count < self.cells.len()
        &&& self.flags_left + count_true(self.flagged()) == self.mine_count
        &&& forall|i: int|
            0 <= i < self.cells.len() ==> ((#[trigger] self.cells[i]).revealed
                ==> !self.cells[i].flagged && !self.cells[i].has_mine)
        &&& self.counted()
    }

    /// Around every revealed cell with no mine next to it, except perhaps
    /// `pending`, all cells are revealed.
    pub open spec fn settled_but(self, pending: int) -> bool {
        forall|a: int, b: int|
            #[trigger] adjacent(self.side as int, a, b) && a != pending && self.cells[a].revealed
                && self.cells[a].mines_around == 0 ==> self.cells[b].revealed
    }

    /// Around every revealed cell with no mine next to it all cells are
    /// revealed.
    pub open spec fn settled(self) -> bool {
        forall|a: int, b: int|
            #[trigger] adjacent(self.side as int, a, b) && self.cells[a].revealed
                && self.cells[a].mines_around == 0 ==> self.cells[b].revealed
    }

    /// The invariant of a field between two operations.
    pub open spec fn valid(self) -> bool {
        self.shaped() && self.settled()
    }

    /// No cell is revealed or flagged yet.
    pub open spec fn fresh(self) -> bool {
        forall|i: int|
            0 <= i < self.cells.len() ==> !(#[trigger] self.cells[i]).revealed
                && !self.cells[i].flagged
    }

    /// Both states belong to one board: same size, same mines, same counts.
    pub open spec fn same_board(self, other: FieldState) -> bool {
        &&& self.side == other.side
        &&& self.mine_count == other.mine_count
        &&& self.cells.len() == other.cells.len()
        &&& forall|i: int|
            0 <= i < self.cells.len() ==> (#[trigger] self.cells[i]).has_mine
                == other.cells[i].has_mine && self.cells[i].mines_around
                == other.cells[i].mines_around
    }
}

/// The grid of cells with its flag budget.
pub struct Field {
    pub(crate) side: usize,
    pub(crate) cells: Vec<Cell>,
    pub(crate) mine_count: usize,
    pub(crate) flags_left: usize,
}

/// Number of mines in a layout.
fn count_mines(mines: &Vec<bool>) -> (total: usize)
    ensures
        total == count_true(mines@),
{
    let mut total: usize = 0;
    let mut i: usize = 0;
    while i < mines.len()
        invariant
            i <= mines.len(),
            total == count_true(mines@.take(i as int)),
            total <= i,
        decreases mines.len() - i,
    {
        proof {
            lemma_count_push(mines@.take(i as int), mines@[i as int]);
            assert(mines@.take(i + 1) =~= mines@.take(i as int).push(mines@[i as int]));
        }
        if mines[i] {
            total = total + 1;
        }
        i = i + 1;
    }
    proof {
        assert(mines@.take(mines@.len() as int) =~= mines@);
    }
    total
}

/// `1` if the cell in column `x` of row `y` holds a mine, else `0`.
fn mine_here(mines: &Vec<bool>, side: usize, x: usize, y: usize) -> (n: u8)
    requires
        mines@.len() == side * side,
        x < side,
        y < side,
    ensures
        n == mine_at(side as int, mines@, x as int, y as int),
{
    proof {
        lemma_index_at(side as int, x as int, y as int);
        assert(mines.len() == side * side);
    }
    if mines[two_d_to_one_d(x, y, side)] {
        1
    } else {
        0
    }
}

/// Counts the mines among the up to eight neighbours of `coord`.
pub fn count_adjacent_mines(mines: &Vec<bool>, side: usize, coord: usize) -> (n: u8)
    requires
        mines@.len() == side * side,
        coord < mines@.len(),
    ensures
        n == adjacent_mines(side as int, mines@, coord as int),
{
    proof {
        assert(side > 0) by (nonlinear_arith)
            requires
                coord < side * side,
        ;
        lemma_coords(side as int, coord as int);
    }
    let (x, y) = one_d_to_two_d(coord, side);
    let mut n: u8 = 0;
    if x > 0 {
        if y > 0 {
            n = n + mine_here(mines, side, x - 1, y - 1);
        }
        n = n + mine_here(mines, side, x - 1, y);
        if y + 1 < side {
            n = n + mine_here(mines, side, x - 1, y + 1);
        }
    }
    if y > 0 {
        n = n + mine_here(mines, side, x, y - 1);
    }
    if y + 1 < side {
        n = n + mine_here(mines, side, x, y + 1);
    }
    if x + 1 < side {
        if y > 0 {
            n = n + mine_here(mines, side, x + 1, y - 1);
        }
        n = n + mine_here(mines, side, x + 1, y);
        if y + 1 < side {
            n = n + mine_here(mines, side, x + 1, y + 1);
        }
    }
    n
}

impl Field {
    /// The state that the contracts speak of.
    pub open(crate) spec fn view(&self) -> FieldState {
        FieldState {
            side: self.side as nat,
            cells: self.cells@,
            mine_count: self.mine_count as nat,
            flags_left: self.flags_left as nat,
        }
    }

    /// The field is in a state that the operations accept and leave behind.
    pub open spec fn wf(&self) -> bool {
        self@.valid()
    }

    /// A well-shaped field fits the machine.
    pub(crate) proof fn lemma_fits(&self)
        requires
            self@.shaped(),
        ensures
            self.side > 0,
            self.side * self.side <= usize::MAX,
            self.cells.len() == self.side * self.side,
    {
        assert(self.cells.len() == self@.cells.len());
    }

    /// Builds the field with the given mine layout, one entry for each cell in
    /// row-major order. No cell is revealed or flagged, and there are as
    /// many flags to set as there are mines.
    ///
    /// Fails with `LayoutSize` if the layout has not `side * side` entries,
    /// and else with `TooManyMines` if it leaves no cell free.
    pub fn from_mines(side: usize, mines: &Vec<bool>) -> (made: Result<Field, ConfigError>)
        requires
            side * side <= usize::MAX,
        ensures
            match made {
                Ok(field) => {
                    &&& mines@.len() == side * side
                    &&& count_true(mines@) < mines@.len()
                    &&& field.wf()
                    &&& field@.side == side
                    &&& field@.mines() == mines@
                    &&& field@.fresh()
                    &&& field@.flags_left == field@.mine_count
                },
                Err(e) => if mines@.len() != side * side {
                    e == ConfigError::LayoutSize
                } else {
                    e == ConfigError::TooManyMines && count_true(mines@) >= mines@.len()
                },
            },
    {
        let total: usize = side * side;
        if mines.len() != total {
            return Err(ConfigError::LayoutSize);
        }
        let mine_count: usize = count_mines(mines);
        if mine_count >= total {
            return Err(ConfigError::TooManyMines);
        }
        let mut cells: Vec<Cell> = Vec::new();
        let mut i: usize = 0;
        while i < total
            invariant
                i <= total,
                total == side * side,
                mines@.len() == total,
                cells@.len() == i,
                forall|j: int|
                    0 <= j < i ==> #[trigger] cells@[j] == (Cell {
                        revealed: false,
                        flagged: false,
                        has_mine: mines@[j],
                        mines_around: if mines@[j] {
                            0u8
                        } else {
                            adjacent_mines(side as int, mines@, j) as u8
                        },
                    }),
            decreases total - i,
        {
            let mut cell = Cell::new();
            if mines[i] {
                cell.has_mine = true;
            } else {
                cell.mines_around = count_adjacent_mines(mines, side, i);
            }
            cells.push(cell);
            i = i + 1;
        }
        let field = Field { side, cells, mine_count, flags_left: mine_count };
        proof {
            assert(field@.mines() =~= mines@);
            lemma_count_zero(field@.flagged());
            assert(field@.counted()) by {
                assert forall|j: int| 0 <= j < field@.cells.len() implies (
                #[trigger] field@.cells[j]).mines_around == if field@.cells[j].has_mine {
                    0
                } else {
                    adjacent_mines(field@.side as int, field@.mines(), j)
                } by {
                    lemma_adjacent_mines_range(side as int, mines@, j);
                }
            }
        }
        Ok(field)
    }

    /// Cells in a row, and rows.
    pub fn side(&self) -> (side: usize)
        ensures
            side == self@.side,
    {
        self.side
    }

    /// The number of mines on the field.
    pub fn mine_count(&self) -> (count: usize)
        ensures
            count == self@.mine_count,
    {
        self.mine_count
    }

    /// The number of flags that may still be set.
    pub fn flags_left(&self) -> (left: usize)
        ensures
            left == self@.flags_left,
    {
        self.flags_left
    }

    /// The number of cells.
    pub fn cell_count(&self) -> (count: usize)
        ensures
            count == self@.cells.len(),
    {
        self.cells.len()
    }

    /// The cell at `index`.
    pub fn cell(&self, index: usize) -> (cell: Cell)
        requires
            index < self@.cells.len(),
        ensures
            cell == self@.cells[index as int],
    {
        self.cells[index]
    }
}

/// On a well-formed field the flags left never exceed the number of mines,
/// and together with the flags on the grid they make up that number.
pub proof fn lemma_flag_budget(field: FieldState)
    requires
        field.valid(),
    ensures
        0 <= field.flags_left <= field.mine_count,
        field.flags_left == field.mine_count - count_true(field.flagged()),
        field.mine_count == count_true(field.mines()),
{
}

/// On a well-formed field every cell without a mine stores the number of
/// mines among its neighbours.
pub proof fn lemma_mines_around(field: FieldState, i: int)
    requires
        field.valid(),
        0 <= i < field.cells.len(),
        !field.cells[i].has_mine,
    ensures
        field.cells[i].mines_around == adjacent_mines(field.side as int, field.mines(), i),
{
}

} // verus!
