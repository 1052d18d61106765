//! What a mine layout determines: the number of mines around each cell, and
//! the region that opens when a cell is revealed.
//!
//! A layout is a `Seq<bool>` over the cells of the board in row-major order,
//! `true` where a mine lies.

use crate::grid::adjacent;
use crate::grid::col_of;
use crate::grid::in_board;
use crate::grid::index_at;
use crate::grid::lemma_coords;
use crate::grid::row_of;
use vstd::prelude::*;

verus! {

/// `1` if column `x` of row `y` lies on the board and holds a mine, else `0`.
pub open spec fn mine_at(side: int, mines: Seq<bool>, x: int, y: int) -> int {
    if 0 <= x < side && 0 <= y < side && mines[index_at(side, x, y)] {
        1
    } else {
        0
    }
}

/// Number of mines among the up to eight neighbours of cell `i`: the
/// three-by-three block around `i`, clipped at the edges of the board,
/// without `i` itself.
pub open spec fn adjacent_mines(side: int, mines: Seq<bool>, i: int) -> int {
    let x = col_of(side, i);
    let y = row_of(side, i);
    mine_at(side, mines, x - 1, y - 1) + mine_at(side, mines, x - 1, y) + mine_at(
        side,
        mines,
        x - 1,
        y + 1,
    ) + mine_at(side, mines, x, y - 1) + mine_at(side, mines, x, y + 1) + mine_at(
        side,
        mines,
        x + 1,
        y - 1,
    ) + mine_at(side, mines, x + 1, y) + mine_at(side, mines, x + 1, y + 1)
}

/// Cell `i` holds no mine and has no mine next to it.
pub open spec fn zero_cell(side: int, mines: Seq<bool>, i: int) -> bool {
    in_board(side, i) && !mines[i] && adjacent_mines(side, mines, i) == 0
}

/// Revealing the zero cell `via` opens its neighbour `to`.
pub open spec fn opens(side: int, mines: Seq<bool>, via: int, to: int) -> bool {
    zero_cell(side, mines, via) && adjacent(side, via, to)
}

/// `to` is reached from `from` in exactly `steps` moves, each from a zero cell
/// to one of its neighbours.
pub open spec fn reaches_in(side: int, mines: Seq<bool>, from: int, to: int, steps: nat) -> bool
    decreases steps,
{
    if steps == 0 {
        in_board(side, from) && to == from
    } else {
        exists|via: int|
            reaches_in(side, mines, from, via, (steps - 1) as nat) && #[trigger] opens(
                side,
                mines,
                via,
                to,
            )
    }
}

/// `to` belongs to the region that opens with `from`: `from` itself, the zero
/// cells connected to it through zero cells, and the cells that border one
/// of those.
pub open spec fn in_region(side: int, mines: Seq<bool>, from: int, to: int) -> bool {
    exists|steps: nat| #[trigger] reaches_in(side, mines, from, to, steps)
}

/// `held` has `from`, and with each of its zero cells all neighbours of it.
pub open spec fn closed_from(side: int, mines: Seq<bool>, held: Seq<bool>, from: int) -> bool {
    &&& held.len() == side * side
    &&& in_board(side, from)
    &&& held[from]
    &&& forall|a: int, b: int|
        #[trigger] adjacent(side, a, b) && held[a] && zero_cell(side, mines, a) ==> held[b]
}

/// A cell has between zero and eight mines around it.
pub proof fn lemma_adjacent_mines_range(side: int, mines: Seq<bool>, i: int)
    ensures
        0 <= adjacent_mines(side, mines, i) <= 8,
{
}

/// No neighbour of a zero cell holds a mine.
pub proof fn lemma_zero_cell_neighbors(side: int, mines: Seq<bool>, a: int, b: int)
    requires
        zero_cell(side, mines, a),
        adjacent(side, a, b),
    ensures
        !mines[b],
{
    lemma_coords(side, a);
    lemma_coords(side, b);
}

/// Every cell of the board belongs to its own region.
pub proof fn lemma_region_start(side: int, mines: Seq<bool>, from: int)
    requires
        in_board(side, from),
    ensures
        in_region(side, mines, from, from),
{
    assert(reaches_in(side, mines, from, from, 0));
}

/// A region holds every neighbour of each of its zero cells.
pub proof fn lemma_region_grow(side: int, mines: Seq<bool>, from: int, via: int, to: int)
    requires
        in_region(side, mines, from, via),
        zero_cell(side, mines, via),
        adjacent(side, via, to),
    ensures
        in_region(side, mines, from, to),
{
    let steps: nat = choose|steps: nat| #[trigger] reaches_in(side, mines, from, via, steps);
    assert(opens(side, mines, via, to));
    assert(reaches_in(side, mines, from, to, steps + 1));
}

proof fn lemma_reaches_prepend(
    side: int,
    mines: Seq<bool>,
    from: int,
    next: int,
    to: int,
    steps: nat,
)
    requires
        zero_cell(side, mines, from),
        adjacent(side, from, next),
        reaches_in(side, mines, next, to, steps),
    ensures
        reaches_in(side, mines, from, to, steps + 1),
    decreases steps,
{
    if steps == 0 {
        assert(reaches_in(side, mines, from, from, 0));
        assert(opens(side, mines, from, to));
    } else {
        let via: int = choose|via: int|
            reaches_in(side, mines, next, via, (steps - 1) as nat) && #[trigger] opens(
                side,
                mines,
                via,
                to,
            );
        lemma_reaches_prepend(side, mines, from, next, via, (steps - 1) as nat);
        assert(opens(side, mines, via, to));
    }
}

/// The region of a zero cell holds the region of each of its neighbours.
pub proof fn lemma_region_through(side: int, mines: Seq<bool>, from: int, next: int, to: int)
    requires
        zero_cell(side, mines, from),
        adjacent(side, from, next),
        in_region(side, mines, next, to),
    ensures
        in_region(side, mines, from, to),
{
    let steps: nat = choose|steps: nat| #[trigger] reaches_in(side, mines, next, to, steps);
    lemma_reaches_prepend(side, mines, from, next, to, steps);
}

/// The region of a cell that is no zero cell is that cell alone.
pub proof fn lemma_region_single(side: int, mines: Seq<bool>, from: int, to: int)
    requires
        !zero_cell(side, mines, from),
        in_region(side, mines, from, to),
    ensures
        to == from,
{
    let steps: nat = choose|steps: nat| #[trigger] reaches_in(side, mines, from, to, steps);
    lemma_reaches_single(side, mines, from, to, steps);
}

proof fn lemma_reaches_single(side: int, mines: Seq<bool>, from: int, to: int, steps: nat)
    requires
        !zero_cell(side, mines, from),
        reaches_in(side, mines, from, to, steps),
    ensures
        to == from,
        steps == 0,
    decreases steps,
{
    if steps > 0 {
        let via: int = choose|via: int|
            reaches_in(side, mines, from, via, (steps - 1) as nat) && #[trigger] opens(
                side,
                mines,
                via,
                to,
            );
        lemma_reaches_single(side, mines, from, via, (steps - 1) as nat);
    }
}

proof fn lemma_reaches_held(
    side: int,
    mines: Seq<bool>,
    held: Seq<bool>,
    from: int,
    to: int,
    steps: nat,
)
    requires
        closed_from(side, mines, held, from),
        reaches_in(side, mines, from, to, steps),
    ensures
        held[to],
    decreases steps,
{
    if steps > 0 {
        let via: int = choose|via: int|
            reaches_in(side, mines, from, via, (steps - 1) as nat) && #[trigger] opens(
                side,
                mines,
                via,
                to,
            );
        lemma_reaches_held(side, mines, held, from, via, (steps - 1) as nat);
    }
}

/// A set of cells that has `from`, and with each of its zero cells all
/// neighbours of it, holds the whole region of `from`.
pub proof fn lemma_region_held(side: int, mines: Seq<bool>, held: Seq<bool>, from: int, to: int)
    requires
        closed_from(side, mines, held, from),
        in_region(side, mines, from, to),
    ensures
        held[to],
{
    let steps: nat = choose|steps: nat| #[trigger] reaches_in(side, mines, from, to, steps);
    lemma_reaches_held(side, mines, held, from, to, steps);
}

/// Every cell of a region, but perhaps the cell that it starts from, is free
/// of a mine.
pub proof fn lemma_region_free(side: int, mines: Seq<bool>, from: int, to: int)
    requires
        in_region(side, mines, from, to),
        to != from,
    ensures
        !mines[to],
{
    let steps: nat = choose|steps: nat| #[trigger] reaches_in(side, mines, from, to, steps);
    if steps > 0 {
        let via: int = choose|via: int|
            reaches_in(side, mines, from, via, (steps - 1) as nat) && #[trigger] opens(
                side,
                mines,
                via,
                to,
            );
        lemma_zero_cell_neighbors(side, mines, via, to);
    }
}

} // verus!
