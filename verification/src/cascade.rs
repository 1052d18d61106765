//! Revealing cells: the single cell, and the cascade that opens the region
//! around a cell with no mine next to it.
//!
//! The cascade keeps the cells that it still has to look around on an explicit
//! stack. The `revealed` mark of a cell is what keeps it from being opened, and
//! stacked, twice.

use crate::board::closed_from;
use crate::board::in_region;
use crate::board::lemma_region_free;
use crate::board::lemma_region_grow;
use crate::board::lemma_region_held;
use crate::board::lemma_region_single;
use crate::board::lemma_region_start;
use crate::board::lemma_region_through;
use crate::board::lemma_zero_cell_neighbors;
use crate::board::zero_cell;
use crate::cell::Cell;
use crate::count::count_true;
use crate::count::lemma_count_bounded;
use crate::count::lemma_count_monotone;
use crate::count::lemma_count_update;
use crate::count::marks_within;
use crate::field::Field;
use crate::field::FieldState;
use crate::grid::adjacent;
use crate::grid::all_adjacent;
use crate::grid::in_board;
use crate::grid::index_at;
use crate::grid::lemma_coords;
use crate::grid::lemma_index_at;
use crate::grid::listed;
use crate::grid::neighbors;
use crate::grid::one_d_to_two_d;
use crate::grid::two_d_to_one_d;
use vstd::prelude::*;

verus! {

/// What one reveal did.
#[derive(Clone, Copy, Debug, PartialEq, Eq, Structural)]
pub struct RevealOutcome {
    /// The cell holds a mine.
    pub hit_mine: bool,
    /// Flags that were taken off revealed cells and went back to the budget.
    pub flags_delta: usize,
    /// Cells that the cascade revealed, besides the cell itself.
    pub cascaded_count: usize,
}

/// The cell after it was revealed: marked, and without its flag.
pub open spec fn opened(cell: Cell) -> Cell {
    Cell { revealed: true, flagged: false, ..cell }
}

impl FieldState {
    /// Cell `i` is hidden and holds no mine: a cascade may open it.
    pub open spec fn hidden_free(self, i: int) -> bool {
        0 <= i < self.cells.len() && !self.cells[i].has_mine && !self.cells[i].revealed
    }

    /// `c` lies in the region of a hidden, mine-free neighbour of `center`.
    pub open spec fn opens_around(self, center: int, c: int) -> bool {
        exists|b: int|
            #[trigger] adjacent(self.side as int, center, b) && self.hidden_free(b) && in_region(
                self.side as int,
                self.mines(),
                b,
                c,
            )
    }

    /// The state in which the hidden cells of `region` are revealed and have
    /// given their flags back to the budget.
    pub open spec fn with_opened(self, region: spec_fn(int) -> bool) -> FieldState {
        let cells = Seq::new(
            self.cells.len(),
            |c: int|
                if region(c) && !self.cells[c].revealed {
                    opened(self.cells[c])
                } else {
                    self.cells[c]
                },
        );
        let flags = count_true(Seq::new(cells.len(), |c: int| cells[c].flagged));
        FieldState { cells, flags_left: (self.mine_count - flags) as nat, ..self }
    }

    /// The state after the surroundings of `center` were revealed: every
    /// hidden, mine-free neighbour of `center` is open, and with it its region.
    pub open spec fn after_surroundings(self, center: int) -> FieldState {
        self.with_opened(|c: int| self.opens_around(center, c))
    }

    /// The state after cell `index` was revealed. A revealed cell and a mine
    /// leave the field as it is; any other cell opens with its region.
    pub open spec fn after_reveal(self, index: int) -> FieldState {
        if self.cells[index].revealed || self.cells[index].has_mine {
            self
        } else {
            self.with_opened(|c: int| in_region(self.side as int, self.mines(), index, c))
        }
    }

    /// What a reveal of cell `index` reports: a mine if the cell is hidden and
    /// holds one; else the flags that came back to the budget and the cells
    /// that opened besides the cell itself.
    pub open spec fn reveal_outcome(self, index: int) -> RevealOutcome {
        let after = self.after_reveal(index);
        if self.hidden_free(index) {
            RevealOutcome {
                hit_mine: false,
                flags_delta: (after.flags_left - self.flags_left) as usize,
                cascaded_count: (count_true(after.revealed()) - count_true(self.revealed())
                    - 1) as usize,
            }
        } else {
            RevealOutcome {
                hit_mine: !self.cells[index].revealed,
                flags_delta: 0,
                cascaded_count: 0,
            }
        }
    }
}

/// Around every revealed cell with no mine next to it all cells are revealed,
/// except perhaps around `origin`, `center` and the cells on the stack.
spec fn settled_off(now: FieldState, origin: int, center: int, stack: Seq<usize>) -> bool {
    forall|a: int, b: int|
        #[trigger] adjacent(now.side as int, a, b) && now.cells[a].revealed
            && now.cells[a].mines_around == 0 && a != origin && a != center && !listed(stack, a)
            ==> now.cells[b].revealed
}

/// Every cell on the stack was opened by this cascade and has no mine next to
/// it.
spec fn stack_ok(start: FieldState, now: FieldState, stack: Seq<usize>) -> bool {
    forall|k: int|
        0 <= k < stack.len() ==> {
            &&& (#[trigger] stack[k]) < now.cells.len()
            &&& now.cells[stack[k] as int].revealed
            &&& !start.cells[stack[k] as int].revealed
            &&& now.cells[stack[k] as int].mines_around == 0
        }
}

/// Every mine-free neighbour of `origin` is revealed.
spec fn seeded(start: FieldState, now: FieldState, origin: int) -> bool {
    forall|b: int|
        #[trigger] adjacent(start.side as int, origin, b) && !start.cells[b].has_mine
            ==> now.cells[b].revealed
}

/// What holds while a cascade around `origin` runs from the state `start`:
/// `count` cells were opened, each of them belongs to what opens around
/// `origin`, and only `origin`, `center` and the cells on the stack may still
/// have closed cells around them. `looked` says that the cascade has looked
/// around `origin` itself.
#[verifier::opaque]
spec fn cascading(
    start: FieldState,
    now: FieldState,
    origin: int,
    center: int,
    stack: Seq<usize>,
    count: int,
    looked: bool,
) -> bool {
    &&& start.shaped()
    &&& now.shaped()
    &&& now.same_board(start)
    &&& in_board(start.side as int, origin)
    &&& forall|c: int|
        0 <= c < now.cells.len() ==> #[trigger] now.cells[c] == if now.cells[c].revealed
            && !start.cells[c].revealed {
            opened(start.cells[c])
        } else {
            start.cells[c]
        }
    &&& forall|c: int|
        0 <= c < now.cells.len() && (#[trigger] now.cells[c]).revealed && !start.cells[c].revealed
            ==> start.opens_around(origin, c)
    &&& stack_ok(start, now, stack)
    &&& settled_off(now, origin, center, stack)
    &&& 0 <= count
    &&& count + count_true(start.revealed()) == count_true(now.revealed())
    &&& looked ==> seeded(start, now, origin)
}

/// On a board with one state well shaped, a cell that stores zero and holds no
/// mine is a zero cell of the layout.
proof fn lemma_stored_zero(state: FieldState, a: int)
    requires
        state.shaped(),
        0 <= a < state.cells.len(),
        !state.cells[a].has_mine,
    ensures
        zero_cell(state.side as int, state.mines(), a) <==> state.cells[a].mines_around == 0,
{
}

/// Two states of one board have the same mine layout.
proof fn lemma_same_mines(a: FieldState, b: FieldState)
    requires
        a.same_board(b),
    ensures
        a.mines() == b.mines(),
{
    assert(a.mines() =~= b.mines());
}

/// In a well-formed state the revealed cells hold, with each revealed cell,
/// its whole region.
proof fn lemma_closed(state: FieldState, from: int)
    requires
        state.valid(),
        0 <= from < state.cells.len(),
        state.cells[from].revealed,
    ensures
        closed_from(state.side as int, state.mines(), state.revealed(), from),
{
    let side: int = state.side as int;
    assert forall|a: int, b: int|
        #[trigger] adjacent(side, a, b) && state.revealed()[a] && zero_cell(
            side,
            state.mines(),
            a,
        ) implies state.revealed()[b] by {
        lemma_stored_zero(state, a);
    }
}

/// A cascade may start from any well-shaped state in which only `origin` may
/// have closed cells around it.
proof fn lemma_cascade_begin(start: FieldState, origin: int)
    requires
        start.shaped(),
        start.settled_but(origin),
        in_board(start.side as int, origin),
    ensures
        cascading(start, start, origin, origin, Seq::<usize>::empty(), 0, false),
{
    reveal(cascading);
}

/// Taking the top cell off the stack makes it the cell to look around next.
proof fn lemma_cascade_pop(
    start: FieldState,
    now: FieldState,
    origin: int,
    stack: Seq<usize>,
    count: int,
)
    requires
        cascading(start, now, origin, origin, stack, count, true),
        stack.len() > 0,
    ensures
        cascading(start, now, origin, stack.last() as int, stack.drop_last(), count, true),
        stack.last() < now.cells.len(),
        stack.last() as int == origin || (now.cells[stack.last() as int].revealed
            && !start.cells[stack.last() as int].revealed
            && now.cells[stack.last() as int].mines_around == 0),
{
    reveal(cascading);
    let center: int = stack.last() as int;
    let rest: Seq<usize> = stack.drop_last();
    assert(stack[stack.len() - 1] == stack.last());
    assert forall|i: int| 0 <= i < rest.len() implies {
        &&& (#[trigger] rest[i]) < now.cells.len()
        &&& now.cells[rest[i] as int].revealed
        &&& !start.cells[rest[i] as int].revealed
        &&& now.cells[rest[i] as int].mines_around == 0
    } by {
        assert(rest[i] == stack[i]);
    }
    assert forall|a: int, c: int|
        #[trigger] adjacent(now.side as int, a, c) && now.cells[a].revealed
            && now.cells[a].mines_around == 0 && a != origin && a != center && !listed(
            rest,
            a,
        ) implies now.cells[c].revealed by {
        if listed(stack, a) {
            let i: int = choose|i: int| 0 <= i < stack.len() && #[trigger] stack[i] as int == a;
            assert(rest[i] == stack[i]);
        }
    }
}

/// Once the stack is empty the cascade has opened exactly what opens around
/// `origin`, and left the field well formed.
proof fn lemma_cascade_end(start: FieldState, end: FieldState, origin: int, count: int)
    requires
        cascading(start, end, origin, origin, Seq::<usize>::empty(), count, true),
    ensures
        end.valid(),
        end == start.after_surroundings(origin),
        count == count_true(end.revealed()) - count_true(start.revealed()),
{
    reveal(cascading);
    let side: int = start.side as int;
    let mines: Seq<bool> = start.mines();
    lemma_same_mines(end, start);
    assert(end.settled()) by {
        assert forall|a: int, c: int|
            #[trigger] adjacent(end.side as int, a, c) && end.cells[a].revealed
                && end.cells[a].mines_around == 0 implies end.cells[c].revealed by {
            if a == origin {
                lemma_stored_zero(end, a);
                lemma_zero_cell_neighbors(side, mines, a, c);
            } else {
                assert(!listed(Seq::<usize>::empty(), a));
            }
        }
    }
    let target: FieldState = start.after_surroundings(origin);
    assert forall|c: int| 0 <= c < end.cells.len() implies end.cells[c] == target.cells[c] by {
        if start.opens_around(origin, c) && !end.cells[c].revealed {
            let seed: int = choose|seed: int|
                #[trigger] adjacent(side, origin, seed) && start.hidden_free(seed) && in_region(
                    side,
                    mines,
                    seed,
                    c,
                );
            lemma_closed(end, seed);
            lemma_region_held(side, mines, end.revealed(), seed, c);
        }
    }
    assert(end.cells =~= target.cells);
    assert(end.flagged() =~= Seq::new(target.cells.len(), |c: int| target.cells[c].flagged));
}

/// What a running cascade tells of the field.
proof fn lemma_cascade_facts(
    start: FieldState,
    now: FieldState,
    origin: int,
    center: int,
    stack: Seq<usize>,
    count: int,
    looked: bool,
)
    requires
        cascading(start, now, origin, center, stack, count, looked),
    ensures
        now.shaped(),
        now.same_board(start),
        0 <= count,
        count + count_true(start.revealed()) == count_true(now.revealed()),
{
    reveal(cascading);
}

/// Opening one hidden, mine-free neighbour `b` of the cell that the cascade
/// looks around, and stacking it if it has no mine next to it, keeps the
/// cascade going.
proof fn lemma_cascade_step(
    start: FieldState,
    before: FieldState,
    after: FieldState,
    origin: int,
    center: int,
    stack_before: Seq<usize>,
    stack_after: Seq<usize>,
    count: int,
    cell: usize,
    looked: bool,
)
    requires
        cascading(start, before, origin, center, stack_before, count, looked),
        0 <= center < before.cells.len(),
        center == origin || (before.cells[center].revealed && !start.cells[center].revealed
            && before.cells[center].mines_around == 0),
        adjacent(start.side as int, center, cell as int),
        before.hidden_free(cell as int),
        after.shaped(),
        after.same_board(before),
        after.cells == before.cells.update(cell as int, opened(before.cells[cell as int])),
        count_true(after.revealed()) == count_true(before.revealed()) + 1,
        stack_after == if after.cells[cell as int].mines_around == 0 {
            stack_before.push(cell)
        } else {
            stack_before
        },
    ensures
        cascading(start, after, origin, center, stack_after, count + 1, looked),
{
    reveal(cascading);
    let b: int = cell as int;
    let side: int = start.side as int;
    let mines: Seq<bool> = start.mines();
    lemma_same_mines(after, start);
    lemma_same_mines(before, start);
    assert(start.opens_around(origin, b)) by {
        if center == origin {
            lemma_region_start(side, mines, b);
            assert(start.hidden_free(b));
        } else {
            assert(start.opens_around(origin, center));
            let seed: int = choose|seed: int|
                #[trigger] adjacent(side, origin, seed) && start.hidden_free(seed) && in_region(
                    side,
                    mines,
                    seed,
                    center,
                );
            lemma_stored_zero(before, center);
            lemma_region_grow(side, mines, seed, center, b);
        }
    }
    assert forall|a: int| listed(stack_before, a) implies listed(stack_after, a) by {
        let i: int = choose|i: int|
            0 <= i < stack_before.len() && #[trigger] stack_before[i] as int == a;
        assert(stack_after[i] == stack_before[i]);
    }
    if after.cells[b].mines_around == 0 {
        assert(stack_after[stack_before.len() as int] == b);
        assert(listed(stack_after, b));
    }
    assert(stack_ok(start, after, stack_after)) by {
        assert forall|i: int| 0 <= i < stack_after.len() implies {
            &&& (#[trigger] stack_after[i]) < after.cells.len()
            &&& after.cells[stack_after[i] as int].revealed
            &&& !start.cells[stack_after[i] as int].revealed
            &&& after.cells[stack_after[i] as int].mines_around == 0
        } by {
            if i < stack_before.len() {
                assert(stack_after[i] == stack_before[i]);
            }
        }
    }
    assert(settled_off(after, origin, center, stack_after)) by {
        assert forall|a: int, c: int|
            #[trigger] adjacent(after.side as int, a, c) && after.cells[a].revealed
                && after.cells[a].mines_around == 0 && a != origin && a != center && !listed(
                stack_after,
                a,
            ) implies after.cells[c].revealed by {
            if a == b {
                assert(listed(stack_after, a));
            } else {
                assert(!listed(stack_before, a));
                assert(before.cells[a].revealed);
                assert(before.cells[c].revealed);
            }
        }
    }
    if looked {
        assert(seeded(start, after, origin)) by {
            assert forall|c: int|
                #[trigger] adjacent(start.side as int, origin, c)
                    && !start.cells[c].has_mine implies after.cells[c].revealed by {
                assert(before.cells[c].revealed);
            }
        }
    }
}

/// Once every mine-free neighbour of `center` is revealed, the cascade has
/// looked around `center`.
proof fn lemma_cascade_looked(
    start: FieldState,
    now: FieldState,
    origin: int,
    center: int,
    stack: Seq<usize>,
    count: int,
    looked: bool,
)
    requires
        cascading(start, now, origin, center, stack, count, looked),
        0 <= center < now.cells.len(),
        forall|b: int|
            #[trigger] adjacent(start.side as int, center, b) && !start.cells[b].has_mine
                ==> now.cells[b].revealed,
    ensures
        cascading(start, now, origin, origin, stack, count, looked || center == origin),
{
    reveal(cascading);
    let side: int = start.side as int;
    let mines: Seq<bool> = start.mines();
    lemma_same_mines(now, start);
    assert(settled_off(now, origin, origin, stack)) by {
        assert forall|a: int, c: int|
            #[trigger] adjacent(now.side as int, a, c) && now.cells[a].revealed
                && now.cells[a].mines_around == 0 && a != origin && !listed(
                stack,
                a,
            ) implies now.cells[c].revealed by {
            if a == center {
                lemma_stored_zero(now, a);
                lemma_zero_cell_neighbors(side, mines, a, c);
            }
        }
    }
}

impl Field {
    /// Marks one hidden, mine-free cell revealed; its flag, if it has one,
    /// goes back to the budget.
    fn open_cell(&mut self, index: usize)
        requires
            old(self)@.shaped(),
            old(self)@.hidden_free(index as int),
        ensures
            final(self)@.shaped(),
            final(self)@.same_board(old(self)@),
            final(self)@.cells == old(self)@.cells.update(
                index as int,
                opened(old(self)@.cells[index as int]),
            ),
            count_true(final(self)@.revealed()) == count_true(old(self)@.revealed()) + 1,
    {
        let mut cell: Cell = self.cells[index];
        let out = cell.reveal_cell();
        proof {
            lemma_count_update(self@.flagged(), index as int, false);
            lemma_count_update(self@.revealed(), index as int, true);
        }
        if out.flag_cleared {
            self.flags_left = self.flags_left + 1;
        }
        self.cells[index] = cell;
        proof {
            assert(self@.mines() =~= old(self)@.mines());
            assert(self@.flagged() =~= old(self)@.flagged().update(index as int, false));
            assert(self@.revealed() =~= old(self)@.revealed().update(index as int, true));
        }
    }

    /// Opens the hidden, mine-free neighbours of `center`, and stacks those
    /// among them that have no mine next to them.
    fn open_around(
        &mut self,
        center: usize,
        stack: &mut Vec<usize>,
        Ghost(start): Ghost<FieldState>,
        Ghost(origin): Ghost<int>,
        Ghost(count): Ghost<int>,
        Ghost(looked): Ghost<bool>,
    ) -> (more: usize)
        requires
            cascading(start, old(self)@, origin, center as int, old(stack)@, count, looked),
            center < old(self)@.cells.len(),
            center == origin || (old(self)@.cells[center as int].revealed
                && !start.cells[center as int].revealed && old(
                self,
            )@.cells[center as int].mines_around == 0),
        ensures
            cascading(
                start,
                final(self)@,
                origin,
                origin,
                final(stack)@,
                count + more,
                looked || center == origin,
            ),
            final(stack)@.len() <= old(stack)@.len() + more,
            final(self)@.cells.len() == old(self)@.cells.len(),
            count_true(final(self)@.revealed()) == count_true(old(self)@.revealed()) + more,
            count_true(final(self)@.revealed()) <= final(self)@.cells.len(),
            0 <= count,
    {
        proof {
            lemma_cascade_facts(start, self@, origin, center as int, stack@, count, looked);
            self.lemma_fits();
            lemma_count_bounded(self@.revealed());
        }
        let around: Vec<usize> = neighbors(center, self.side);
        let ghost side: int = start.side as int;
        let mut more: usize = 0;
        let mut k: usize = 0;
        while k < around.len()
            invariant
                k <= around@.len(),
                around@.len() <= 8,
                all_adjacent(side, center as int, around@),
                side == start.side,
                center < self@.cells.len(),
                self@.cells.len() == old(self)@.cells.len(),
                cascading(start, self@, origin, center as int, stack@, count + more, looked),
                stack@.len() <= old(stack)@.len() + more,
                count_true(self@.revealed()) == count_true(old(self)@.revealed()) + more,
                count_true(self@.revealed()) <= self@.cells.len(),
                center == origin || (self@.cells[center as int].revealed
                    && !start.cells[center as int].revealed
                    && self@.cells[center as int].mines_around == 0),
                forall|j: int|
                    0 <= j < k && !start.cells[around@[j] as int].has_mine
                        ==> self@.cells[#[trigger] around@[j] as int].revealed,
            decreases around@.len() - k,
        {
            let b: usize = around[k];
            let ghost before: FieldState = self@;
            let ghost stack_before: Seq<usize> = stack@;
            proof {
                lemma_cascade_facts(
                    start,
                    before,
                    origin,
                    center as int,
                    stack_before,
                    count + more,
                    looked,
                );
                self.lemma_fits();
                assert(adjacent(side, center as int, b as int));
            }
            if self.cells[b].should_reveal() {
                self.open_cell(b);
                proof {
                    lemma_count_bounded(self@.revealed());
                    assert(self.cells.len() == self@.cells.len());
                }
                more = more + 1;
                if self.cells[b].mines_around == 0 {
                    stack.push(b);
                }
                proof {
                    lemma_cascade_step(
                        start,
                        before,
                        self@,
                        origin,
                        center as int,
                        stack_before,
                        stack@,
                        count + more - 1,
                        b,
                        looked,
                    );
                }
            }
            k = k + 1;
        }
        proof {
            assert forall|b: int|
                #[trigger] adjacent(side, center as int, b)
                    && !start.cells[b].has_mine implies self@.cells[b].revealed by {
                assert(listed(around@, b));
                let j: int = choose|j: int|
                    0 <= j < around@.len() && #[trigger] around@[j] as int == b;
                assert(self@.cells[around@[j] as int].revealed);
            }
            lemma_cascade_looked(
                start,
                self@,
                origin,
                center as int,
                stack@,
                count + more,
                looked,
            );
        }
        more
    }

    /// Reveals the surroundings of the cell in column `x` of row `y`: each
    /// hidden neighbour that holds no mine, and from every cell so opened that
    /// has no mine next to it, its neighbours in turn. Returns the number of
    /// cells that it revealed.
    ///
    /// The field may come with the cell itself just revealed and its
    /// surroundings still closed; it is left well formed.
    pub fn reveal_surrounding_mines_from_x_y(&mut self, x: usize, y: usize) -> (count: usize)
        requires
            old(self)@.shaped(),
            old(self)@.settled_but(index_at(old(self)@.side as int, x as int, y as int)),
            x < old(self)@.side,
            y < old(self)@.side,
        ensures
            final(self).wf(),
            final(self)@ == old(self)@.after_surroundings(
                index_at(old(self)@.side as int, x as int, y as int),
            ),
            count == count_true(final(self)@.revealed()) - count_true(old(self)@.revealed()),
    {
        proof {
            self.lemma_fits();
            lemma_index_at(self.side as int, x as int, y as int);
        }
        let origin: usize = two_d_to_one_d(x, y, self.side);
        let ghost start: FieldState = self@;
        let mut stack: Vec<usize> = Vec::new();
        proof {
            lemma_cascade_begin(start, origin as int);
        }
        let mut count: usize = self.open_around(
            origin,
            &mut stack,
            Ghost(start),
            Ghost(origin as int),
            Ghost(0),
            Ghost(false),
        );
        while stack.len() > 0
            invariant
                cascading(start, self@, origin as int, origin as int, stack@, count as int, true),
                count + count_true(start.revealed()) == count_true(self@.revealed()),
                count_true(self@.revealed()) <= self@.cells.len(),
            decreases 2 * (self@.cells.len() - count_true(self@.revealed())) + stack@.len(),
        {
            proof {
                lemma_cascade_pop(start, self@, origin as int, stack@, count as int);
            }
            let center: usize = stack.pop().unwrap();
            let more: usize = self.open_around(
                center,
                &mut stack,
                Ghost(start),
                Ghost(origin as int),
                Ghost(count as int),
                Ghost(true),
            );
            proof {
                assert(self@.cells.len() <= usize::MAX) by {
                    assert(self.cells.len() == self@.cells.len());
                }
            }
            count = count + more;
        }
        proof {
            assert(stack@ =~= Seq::<usize>::empty());
            lemma_cascade_end(start, self@, origin as int, count as int);
        }
        count
    }

    /// Reveals the surroundings of the cell at `index`, as
    /// `reveal_surrounding_mines_from_x_y` does for its column and row.
    pub fn reveal_surrounding_mines_from_index(&mut self, index: usize) -> (count: usize)
        requires
            old(self)@.shaped(),
            old(self)@.settled_but(index as int),
            index < old(self)@.cells.len(),
        ensures
            final(self).wf(),
            final(self)@ == old(self)@.after_surroundings(index as int),
            count == count_true(final(self)@.revealed()) - count_true(old(self)@.revealed()),
    {
        proof {
            self.lemma_fits();
            lemma_coords(self.side as int, index as int);
        }
        let (x, y) = one_d_to_two_d(index, self.side);
        self.reveal_surrounding_mines_from_x_y(x, y)
    }
    /// Reveals the cell at `index`.
    ///
    /// A cell that is revealed already, and a cell with a mine, leave the
    /// field as it is; the mine is reported. Any other cell is revealed and
    /// loses its flag. If it has no mine next to it, its region opens with it:
    /// the cells connected to it through cells with no mine next to them, and
    /// the cells that border those.
    pub fn reveal_from_index(&mut self, index: usize) -> (out: RevealOutcome)
        requires
            old(self).wf(),
            index < old(self)@.cells.len(),
        ensures
            final(self).wf(),
            final(self)@.same_board(old(self)@),
            final(self)@ == old(self)@.after_reveal(index as int),
            out == old(self)@.reveal_outcome(index as int),
            old(self)@.cells[index as int].revealed ==> final(self)@ == old(self)@ && out == (
            RevealOutcome { hit_mine: false, flags_delta: 0, cascaded_count: 0 }),
            !out.hit_mine ==> final(self)@.cells[index as int].revealed,
            final(self)@.flags_left == old(self)@.flags_left + out.flags_delta,
    {
        let cell: Cell = self.cells[index];
        if cell.revealed {
            return RevealOutcome { hit_mine: false, flags_delta: 0, cascaded_count: 0 };
        }
        if cell.has_mine {
            return RevealOutcome { hit_mine: true, flags_delta: 0, cascaded_count: 0 };
        }
        let flags_before: usize = self.flags_left;
        self.open_cell(index);
        let ghost mid: FieldState = self@;
        let mut cascaded: usize = 0;
        if cell.mines_around == 0 {
            cascaded = self.reveal_surrounding_mines_from_index(index);
        }
        proof {
            lemma_reveal_done(old(self)@, mid, self@, index as int);
            lemma_region_start(self@.side as int, old(self)@.mines(), index as int);
        }
        RevealOutcome {
            hit_mine: false,
            flags_delta: self.flags_left - flags_before,
            cascaded_count: cascaded,
        }
    }
}

/// Revealing a cell, and then the surroundings of it if it has no mine next
/// to it, opens exactly the region of the cell.
proof fn lemma_reveal_done(start: FieldState, mid: FieldState, end: FieldState, index: int)
    requires
        start.valid(),
        start.hidden_free(index),
        mid.shaped(),
        mid.same_board(start),
        mid.cells == start.cells.update(index, opened(start.cells[index])),
        end == if start.cells[index].mines_around == 0 {
            mid.after_surroundings(index)
        } else {
            mid
        },
        start.cells[index].mines_around == 0 ==> end.valid(),
    ensures
        mid.settled_but(index),
        end.valid(),
        end.same_board(start),
        end == start.after_reveal(index),
        end.flags_left >= start.flags_left,
{
    let side: int = start.side as int;
    let mines: Seq<bool> = start.mines();
    lemma_same_mines(mid, start);
    assert(mid.settled_but(index)) by {
        assert forall|a: int, b: int|
            #[trigger] adjacent(mid.side as int, a, b) && a != index && mid.cells[a].revealed
                && mid.cells[a].mines_around == 0 implies mid.cells[b].revealed by {
            assert(start.cells[a].revealed);
            assert(start.cells[b].revealed);
        }
    }
    assert(end.settled()) by {
        if start.cells[index].mines_around != 0 {
            assert forall|a: int, b: int|
                #[trigger] adjacent(end.side as int, a, b) && end.cells[a].revealed
                    && end.cells[a].mines_around == 0 implies end.cells[b].revealed by {
                assert(a != index);
            }
        }
    }
    lemma_region_start(side, mines, index);
    lemma_stored_zero(start, index);
    let target: FieldState = start.after_reveal(index);
    assert(end.cells.len() == target.cells.len());
    assert forall|c: int| 0 <= c < end.cells.len() implies end.cells[c] == target.cells[c] by {
        if start.cells[index].mines_around != 0 {
            if in_region(side, mines, index, c) {
                lemma_region_single(side, mines, index, c);
            }
        } else if c != index {
            if mid.opens_around(index, c) {
                let seed: int = choose|seed: int|
                    #[trigger] adjacent(side, index, seed) && mid.hidden_free(seed) && in_region(
                        side,
                        mines,
                        seed,
                        c,
                    );
                lemma_region_through(side, mines, index, seed, c);
            }
            if in_region(side, mines, index, c) {
                lemma_same_mines(end, start);
                lemma_closed(end, index);
                lemma_region_held(side, mines, end.revealed(), index, c);
            }
        }
    }
    assert(end.cells =~= target.cells);
    assert(end.same_board(start));
    assert(end.flagged() =~= Seq::new(target.cells.len(), |c: int| target.cells[c].flagged));
    assert(marks_within(end.flagged(), start.flagged()));
    lemma_count_monotone(end.flagged(), start.flagged());
}

/// Revealing a cell a second time changes nothing.
pub proof fn lemma_reveal_idempotent(state: FieldState, index: int)
    requires
        state.valid(),
        0 <= index < state.cells.len(),
    ensures
        state.after_reveal(index).after_reveal(index) == state.after_reveal(index),
{
    if state.hidden_free(index) {
        lemma_region_start(state.side as int, state.mines(), index);
    }
}

/// After a reveal the revealed cells are those that were revealed before
/// and, where the cell was hidden and free of a mine, the cells of its
/// region. None of them holds a mine.
pub proof fn lemma_reveal_opens_region(state: FieldState, index: int, c: int)
    requires
        state.valid(),
        0 <= index < state.cells.len(),
        0 <= c < state.cells.len(),
    ensures
        state.cells[c].revealed ==> state.after_reveal(index).cells[c].revealed,
        state.after_reveal(index).cells[c].revealed ==> !state.cells[c].has_mine,
        state.after_reveal(index).cells[c].revealed <==> state.cells[c].revealed || (
        state.hidden_free(index) && in_region(state.side as int, state.mines(), index, c)),
{
    let side: int = state.side as int;
    let mines: Seq<bool> = state.mines();
    if state.hidden_free(index) && in_region(side, mines, index, c) && c != index {
        lemma_region_free(side, mines, index, c);
    }
}

} // verus!
