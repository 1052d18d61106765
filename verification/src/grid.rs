//! Row-major coordinates on a square board, and the neighbourhood of a cell.
//!
//! A board of side `S` numbers its cells `0 .. S * S`, row after row. Cell `i`
//! lies in column `i % S` of row `i / S`.

use vstd::arithmetic::div_mod::lemma_fundamental_div_mod;
use vstd::arithmetic::div_mod::lemma_fundamental_div_mod_converse;
use vstd::arithmetic::div_mod::lemma_mod_bound;
use vstd::prelude::*;

verus! {

/// `i` is the index of a cell on a board of side `side`.
pub open spec fn in_board(side: int, i: int) -> bool {
    0 < side && 0 <= i < side * side
}

/// Column of cell `i`.
pub open spec fn col_of(side: int, i: int) -> int {
    i % side
}

/// Row of cell `i`.
pub open spec fn row_of(side: int, i: int) -> int {
    i / side
}

/// Index of the cell in column `x` of row `y`.
pub open spec fn index_at(side: int, x: int, y: int) -> int {
    y * side + x
}

/// `a` and `b` are distinct cells of the board whose columns and rows each
/// differ by at most one: `b` is one of the up to eight neighbours of `a`.
pub open spec fn adjacent(side: int, a: int, b: int) -> bool {
    &&& in_board(side, a)
    &&& in_board(side, b)
    &&& a != b
    &&& -1 <= col_of(side, b) - col_of(side, a) <= 1
    &&& -1 <= row_of(side, b) - row_of(side, a) <= 1
}

/// `b` occurs in the list `cells`.
pub open spec fn listed(cells: Seq<usize>, b: int) -> bool {
    exists|k: int| 0 <= k < cells.len() && #[trigger] cells[k] as int == b
}

/// A column and a row inside the board name a cell of the board, and that cell
/// lies in exactly this column and row.
pub proof fn lemma_index_at(side: int, x: int, y: int)
    requires
        0 <= x < side,
        0 <= y < side,
    ensures
        in_board(side, index_at(side, x, y)),
        col_of(side, index_at(side, x, y)) == x,
        row_of(side, index_at(side, x, y)) == y,
{
    assert(0 <= y * side <= (side - 1) * side) by (nonlinear_arith)
        requires
            0 <= y <= side - 1,
            0 < side,
    ;
    assert((side - 1) * side == side * side - side) by (nonlinear_arith);
    lemma_fundamental_div_mod_converse(y * side + x, side, y, x);
}

/// Every cell of the board lies in a column and a row inside the board, and
/// is the cell that they name.
pub proof fn lemma_coords(side: int, i: int)
    requires
        in_board(side, i),
    ensures
        0 <= col_of(side, i) < side,
        0 <= row_of(side, i) < side,
        index_at(side, col_of(side, i), row_of(side, i)) == i,
{
    lemma_fundamental_div_mod(i, side);
    lemma_mod_bound(i, side);
    let q = i / side;
    assert(side * q == q * side) by (nonlinear_arith);
    assert(0 <= q < side) by (nonlinear_arith)
        requires
            0 <= i < side * side,
            0 < side,
            i == q * side + i % side,
            0 <= i % side < side,
    ;
}

/// Splits a row-major cell index into its column and its row.
pub fn one_d_to_two_d(coord: usize, side: usize) -> (xy: (usize, usize))
    requires
        side > 0,
    ensures
        xy.0 == col_of(side as int, coord as int),
        xy.1 == row_of(side as int, coord as int),
        xy.0 < side,
        in_board(side as int, coord as int) ==> xy.1 < side,
{
    proof {
        lemma_mod_bound(coord as int, side as int);
        if in_board(side as int, coord as int) {
            lemma_coords(side as int, coord as int);
        }
    }
    (coord % side, coord / side)
}

/// Joins a column and a row into the row-major index of their cell.
pub fn two_d_to_one_d(x: usize, y: usize, side: usize) -> (coord: usize)
    requires
        y * side + x <= usize::MAX,
    ensures
        coord == index_at(side as int, x as int, y as int),
        x < side && y < side ==> in_board(side as int, coord as int),
        x < side ==> col_of(side as int, coord as int) == x && row_of(side as int, coord as int)
            == y,
{
    proof {
        assert(0 <= y * side) by (nonlinear_arith);
        if x < side {
            lemma_fundamental_div_mod_converse(y * side + x, side as int, y as int, x as int);
            if y < side {
                lemma_index_at(side as int, x as int, y as int);
            }
        }
    }
    y * side + x
}

/// Every entry of `cells` is a neighbour of `coord`.
pub open spec fn all_adjacent(side: int, coord: int, cells: Seq<usize>) -> bool {
    forall|k: int| 0 <= k < cells.len() ==> adjacent(side, coord, #[trigger] cells[k] as int)
}

/// Appends the cell in column `x` of row `y` to a list of neighbours of `coord`.
fn push_neighbor(out: &mut Vec<usize>, coord: usize, x: usize, y: usize, side: usize)
    requires
        side * side <= usize::MAX,
        x < side,
        y < side,
        all_adjacent(side as int, coord as int, old(out)@),
        adjacent(side as int, coord as int, index_at(side as int, x as int, y as int)),
    ensures
        final(out)@ == old(out)@.push(index_at(side as int, x as int, y as int) as usize),
        all_adjacent(side as int, coord as int, final(out)@),
        listed(final(out)@, index_at(side as int, x as int, y as int)),
        forall|b: int| listed(old(out)@, b) ==> listed(final(out)@, b),
{
    proof {
        lemma_index_at(side as int, x as int, y as int);
    }
    let cell: usize = two_d_to_one_d(x, y, side);
    out.push(cell);
    proof {
        let before = old(out)@;
        let after = out@;
        assert(after[before.len() as int] == cell);
        assert forall|b: int| listed(before, b) implies listed(after, b) by {
            let k: int = choose|k: int| 0 <= k < before.len() && #[trigger] before[k] as int == b;
            assert(after[k] == before[k]);
        }
    }
}

/// The cell in column `x` of row `y` as a list: of one entry if it lies on
/// the board, and empty if not.
pub open spec fn block_cell(side: int, x: int, y: int) -> Seq<usize> {
    if 0 <= x < side && 0 <= y < side {
        seq![index_at(side, x, y) as usize]
    } else {
        Seq::empty()
    }
}

/// The cells of column `x` in the rows `y - 1`, `y` and `y + 1`, from the
/// top; without the cell in row `y` unless `whole`.
pub open spec fn column_cells(side: int, x: int, y: int, whole: bool) -> Seq<usize> {
    block_cell(side, x, y - 1) + if whole {
        block_cell(side, x, y)
    } else {
        Seq::empty()
    } + block_cell(side, x, y + 1)
}

/// The neighbours of cell `i` in the order in which they are visited: the
/// three-by-three block around `i` without `i` itself, column by column from
/// the left, each column from the top, clipped at the edges of the board.
pub open spec fn neighbor_list(side: int, i: int) -> Seq<usize> {
    let x = col_of(side, i);
    let y = row_of(side, i);
    column_cells(side, x - 1, y, true) + column_cells(side, x, y, false) + column_cells(
        side,
        x + 1,
        y,
        true,
    )
}

/// Appends to a list of neighbours of `coord` the cells that column `x` has
/// in the block around `coord`, which lies in row `y`.
fn push_column(out: &mut Vec<usize>, coord: usize, x: usize, y: usize, side: usize)
    requires
        side * side <= usize::MAX,
        in_board(side as int, coord as int),
        x < side,
        y == row_of(side as int, coord as int),
        -1 <= x - col_of(side as int, coord as int) <= 1,
        all_adjacent(side as int, coord as int, old(out)@),
    ensures
        final(out)@ == old(out)@ + column_cells(
            side as int,
            x as int,
            y as int,
            x != col_of(side as int, coord as int),
        ),
        final(out)@.len() <= old(out)@.len() + 3,
        all_adjacent(side as int, coord as int, final(out)@),
        forall|b: int| listed(old(out)@, b) ==> listed(final(out)@, b),
        forall|b: int|
            #[trigger] adjacent(side as int, coord as int, b) && col_of(side as int, b) == x
                ==> listed(final(out)@, b),
{
    let ghost s: int = side as int;
    proof {
        lemma_coords(s, coord as int);
        lemma_index_at(s, x as int, y as int);
        if y > 0 {
            lemma_index_at(s, x as int, y - 1);
        }
        if y + 1 < side {
            lemma_index_at(s, x as int, y + 1);
        }
    }
    let (own, _) = one_d_to_two_d(coord, side);
    if y > 0 {
        push_neighbor(out, coord, x, y - 1, side);
    }
    if x != own {
        push_neighbor(out, coord, x, y, side);
    }
    if y + 1 < side {
        push_neighbor(out, coord, x, y + 1, side);
    }
    proof {
        assert(out@ =~= old(out)@ + column_cells(s, x as int, y as int, x != own));
        assert forall|b: int|
            #[trigger] adjacent(s, coord as int, b) && col_of(s, b) == x implies listed(
            out@,
            b,
        ) by {
            lemma_coords(s, b);
        }
    }
}

/// The neighbours of `coord`, as `neighbor_list` orders them. Every entry is
/// adjacent to `coord`, and every cell adjacent to `coord` is in the list.
pub fn neighbors(coord: usize, side: usize) -> (out: Vec<usize>)
    requires
        in_board(side as int, coord as int),
        side * side <= usize::MAX,
    ensures
        out@ == neighbor_list(side as int, coord as int),
        out@.len() <= 8,
        all_adjacent(side as int, coord as int, out@),
        forall|b: int| adjacent(side as int, coord as int, b) ==> listed(out@, b),
{
    let (x, y) = one_d_to_two_d(coord, side);
    let mut out: Vec<usize> = Vec::new();
    let ghost s: int = side as int;
    if x > 0 {
        push_column(&mut out, coord, x - 1, y, side);
    }
    let ghost left: Seq<usize> = out@;
    push_column(&mut out, coord, x, y, side);
    let ghost middle: Seq<usize> = out@;
    if x + 1 < side {
        push_column(&mut out, coord, x + 1, y, side);
    }
    proof {
        assert(left =~= column_cells(s, x - 1, y as int, true));
        assert(out@ =~= left + column_cells(s, x as int, y as int, false) + column_cells(
            s,
            x + 1,
            y as int,
            true,
        ));
        assert(column_cells(s, x as int, y as int, false).len() <= 2);
    }
    out
}

} // verus!
