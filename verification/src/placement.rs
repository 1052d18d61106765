//! Laying the mines of a new field at random.
//!
//! The layout grows in passes over the cells in row-major order. A pass
//! skips each cell on the toss of a coin, leaves a cell alone beside which a
//! mine lies already, and else sets a mine on the toss of a second coin, as
//! long as mines are left to set. Beside a cell lie the cells one index and
//! one row's length before and after it. Passes that only toss coins need not
//! come to an end with all mines set, so their number is bounded; what they
//! leave unset goes to the first free cells of the board.

use crate::count::count_true;
use crate::count::lemma_count_full;
use crate::count::lemma_count_update;
use crate::count::lemma_count_zero;
use crate::count::marks_within;
use crate::field::ConfigError;
use crate::field::Field;
use vstd::prelude::*;

verus! {

/// The number of passes that toss coins before the rest is set outright.
pub const MAX_RANDOM_PASSES: usize = 64;

/// A mine lies beside cell `i`: at the index before or after it, or one
/// row's length before or after it, wherever that index is on the board.
pub open spec fn mine_beside(side: int, mines: Seq<bool>, i: int) -> bool {
    ||| (0 <= i - 1 && mines[i - 1])
    ||| (0 <= i - side && mines[i - side])
    ||| (i + 1 < mines.len() && mines[i + 1])
    ||| (i + side < mines.len() && mines[i + side])
}

/// No mine of the layout has a mine beside it.
pub open spec fn spread(side: int, mines: Seq<bool>) -> bool {
    forall|i: int| 0 <= i < mines.len() && #[trigger] mines[i] ==> !mine_beside(side, mines, i)
}

/// `after` is `before` with a mine on every cell ahead of `cut`.
pub open spec fn filled_to(before: Seq<bool>, after: Seq<bool>, cut: int) -> bool {
    &&& after.len() == before.len()
    &&& 0 <= cut <= before.len()
    &&& forall|i: int| 0 <= i < cut ==> #[trigger] after[i]
    &&& forall|i: int| cut <= i < before.len() ==> #[trigger] after[i] == before[i]
}

/// `mines` is the layout `laid`, in which no mine has a mine beside it, with
/// a mine besides on every cell ahead of `cut`. If `cut` is not zero, the
/// cell before it was free in `laid`.
pub open spec fn laid_then_filled(side: int, laid: Seq<bool>, mines: Seq<bool>, cut: int) -> bool {
    &&& spread(side, laid)
    &&& filled_to(laid, mines, cut)
    &&& cut > 0 ==> !laid[cut - 1]
}

/// Tosses a fair coin.
///
/// Calls `rand::random::<bool>()`, which draws from the generator that the
/// `rand` crate keeps for each thread and seeds from the operating system.
/// The outcome is a matter of chance, so nothing is claimed of it.
#[verifier::external_body]
fn random_bool() -> bool {
    rand::random()
}

/// Tests whether a mine lies beside cell `i`.
pub fn has_mine_beside(mines: &Vec<bool>, side: usize, i: usize) -> (beside: bool)
    requires
        i < mines@.len(),
    ensures
        beside == mine_beside(side as int, mines@, i as int),
{
    let len: usize = mines.len();
    if i >= 1 && mines[i - 1] {
        return true;
    }
    if i >= side && mines[i - side] {
        return true;
    }
    if i + 1 < len && mines[i + 1] {
        return true;
    }
    if side < len - i && mines[i + side] {
        return true;
    }
    false
}

/// Sets a mine on cell `i` if the coin says so, the cell is free, and a mine
/// is left to set. Returns the number of mines that are then left.
pub fn set_mine_on(mines: &mut Vec<bool>, i: usize, left: usize, coin: bool) -> (rest: usize)
    requires
        i < old(mines)@.len(),
    ensures
        final(mines)@ == if coin && !old(mines)@[i as int] && left > 0 {
            old(mines)@.update(i as int, true)
        } else {
            old(mines)@
        },
        rest == if coin && !old(mines)@[i as int] && left > 0 {
            left - 1
        } else {
            left as int
        },
{
    if coin && !mines[i] && left > 0 {
        mines[i] = true;
        left - 1
    } else {
        left
    }
}

/// Setting a mine on a free cell that has no mine beside it keeps the layout
/// spread, and adds one to its count.
proof fn lemma_spread_grows(side: int, mines: Seq<bool>, i: int)
    requires
        0 < side,
        0 <= i < mines.len(),
        spread(side, mines),
        !mines[i],
        !mine_beside(side, mines, i),
    ensures
        spread(side, mines.update(i, true)),
        count_true(mines.update(i, true)) == count_true(mines) + 1,
        marks_within(mines, mines.update(i, true)),
{
    let next: Seq<bool> = mines.update(i, true);
    lemma_count_update(mines, i, true);
    assert forall|j: int| 0 <= j < next.len() && #[trigger] next[j] implies !mine_beside(
        side,
        next,
        j,
    ) by {
        if j != i {
            assert(mines[j]);
            assert(!mine_beside(side, mines, j));
        }
    }
}

/// One pass over the cells: tosses the coins and sets the mines that they
/// call for. Returns the number of mines left to set.
fn random_pass(mines: &mut Vec<bool>, side: usize, left: usize) -> (rest: usize)
    requires
        0 < side,
        spread(side as int, old(mines)@),
    ensures
        final(mines)@.len() == old(mines)@.len(),
        spread(side as int, final(mines)@),
        marks_within(old(mines)@, final(mines)@),
        rest <= left,
        count_true(final(mines)@) + rest == count_true(old(mines)@) + left,
{
    let mut rest: usize = left;
    let mut i: usize = 0;
    while i < mines.len()
        invariant
            0 < side,
            mines@.len() == old(mines)@.len(),
            spread(side as int, mines@),
            marks_within(old(mines)@, mines@),
            rest <= left,
            count_true(mines@) + rest == count_true(old(mines)@) + left,
        decreases mines@.len() - i,
    {
        if !random_bool() {
            if !has_mine_beside(mines, side, i) {
                let coin: bool = random_bool();
                proof {
                    if coin && !mines@[i as int] && rest > 0 {
                        lemma_spread_grows(side as int, mines@, i as int);
                    }
                }
                rest = set_mine_on(mines, i, rest, coin);
            }
        }
        i = i + 1;
    }
    rest
}

/// Lays up to `mine_count` mines on an empty board in at most `passes`
/// passes of coin tosses. Returns the layout and the number of mines that
/// are still to set. No mine of the layout has a mine beside it.
pub fn scatter_mines(side: usize, mine_count: usize, passes: usize) -> (laid: (Vec<bool>, usize))
    requires
        0 < side,
        side * side <= usize::MAX,
    ensures
        laid.0@.len() == side * side,
        spread(side as int, laid.0@),
        count_true(laid.0@) + laid.1 == mine_count,
        passes == 0 ==> laid.1 == mine_count,
{
    let total: usize = side * side;
    let mut mines: Vec<bool> = Vec::new();
    let mut i: usize = 0;
    while i < total
        invariant
            i <= total,
            mines@.len() == i,
            forall|j: int| 0 <= j < i ==> !#[trigger] mines@[j],
        decreases total - i,
    {
        mines.push(false);
        i = i + 1;
    }
    proof {
        lemma_count_zero(mines@);
    }
    let mut left: usize = mine_count;
    let mut pass: usize = 0;
    while left > 0 && pass < passes
        invariant
            0 < side,
            mines@.len() == total,
            spread(side as int, mines@),
            count_true(mines@) + left == mine_count,
            pass <= passes,
            passes == 0 ==> left == mine_count,
        decreases passes - pass,
    {
        left = random_pass(&mut mines, side, left);
        pass = pass + 1;
    }
    (mines, left)
}

/// Sets `left` mines on the first free cells of the layout, in row-major
/// order. Returns the index behind the last cell that it set: ahead of it
/// every cell holds a mine, from it on the layout is as it was.
pub fn fill_mines(mines: &mut Vec<bool>, left: usize) -> (cut: usize)
    requires
        count_true(old(mines)@) + left <= old(mines)@.len(),
    ensures
        filled_to(old(mines)@, final(mines)@, cut as int),
        count_true(final(mines)@) == count_true(old(mines)@) + left,
        left == 0 ==> cut == 0,
        left > 0 ==> cut > 0 && !old(mines)@[cut - 1],
{
    let mut rest: usize = left;
    let mut i: usize = 0;
    while rest > 0
        invariant
            filled_to(old(mines)@, mines@, i as int),
            count_true(mines@) + rest == count_true(old(mines)@) + left,
            count_true(old(mines)@) + left <= old(mines)@.len(),
            rest <= left,
            left == 0 ==> i == 0,
            rest == 0 && left > 0 ==> i > 0 && !old(mines)@[i - 1],
        decreases mines@.len() - i,
    {
        proof {
            if i >= mines@.len() {
                lemma_count_full(mines@);
            }
            assert(mines.len() == mines@.len());
        }
        if !mines[i] {
            proof {
                lemma_count_update(mines@, i as int, true);
            }
            mines[i] = true;
            rest = rest - 1;
        }
        i = i + 1;
    }
    i
}

impl Field {
    /// Makes a field of `side` by `side` cells with `mine_count` mines laid
    /// at random. No cell is revealed or flagged, and there are as many flags
    /// to set as there are mines.
    ///
    /// Fails with `TooManyMines` if the mines would leave no cell free.
    pub fn new(mine_count: usize, side: usize) -> (made: Result<Field, ConfigError>)
        requires
            side * side <= usize::MAX,
        ensures
            made is Ok <==> mine_count < side * side,
            made matches Err(e) ==> e == ConfigError::TooManyMines,
            made matches Ok(field) ==> {
                &&& field.wf()
                &&& field@.side == side
                &&& field@.mine_count == mine_count
                &&& count_true(field@.mines()) == mine_count
                &&& field@.flags_left == mine_count
                &&& field@.fresh()
                &&& exists|laid: Seq<bool>, cut: int| #[trigger]
                    laid_then_filled(side as int, laid, field@.mines(), cut)
            },
    {
        if mine_count >= side * side {
            return Err(ConfigError::TooManyMines);
        }
        let (mut mines, left) = scatter_mines(side, mine_count, MAX_RANDOM_PASSES);
        let ghost laid: Seq<bool> = mines@;
        let cut: usize = fill_mines(&mut mines, left);
        proof {
            assert(laid_then_filled(side as int, laid, mines@, cut as int));
        }
        Field::from_mines(side, &mines)
    }
}

} // verus!
