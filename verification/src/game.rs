//! The game session: a field, the selection cursor, the buttons, the timer
//! and the status of the game.
//!
//! The session reads no clock. Every action that may start or stop the timer
//! takes the present time in seconds, as the caller's clock gives it.

use crate::cascade::RevealOutcome;
use crate::cell::Cell;
use crate::count::count_true;
use crate::count::lemma_count_zero;
use crate::cursor::lemma_moved;
use crate::cursor::move_selection;
use crate::cursor::moved;
use crate::field::ConfigError;
use crate::field::Field;
use crate::field::FieldState;
use crate::flags::lemma_win_condition;
use crate::input::ButtonState;
use crate::input::Edge;
use crate::input::BUTTON_COUNT;
use crate::input::DOWN;
use crate::input::FLAG;
use crate::input::REVEAL;
use vstd::prelude::*;

verus! {

/// Cells in a row, and rows, of the standard board.
pub const NUMBER_OF_ROWS_AND_COLUMNS: usize = 24;

/// Cells of the standard board.
pub const NUMBER_OF_CELLS: usize = 576;

/// Mines of the standard board.
pub const NUMBER_OF_MINES: usize = 99;

/// How the game stands.
#[derive(Clone, Copy, Debug, PartialEq, Eq, Structural)]
pub enum Status {
    /// The game goes on.
    Playing,
    /// The flags cover the mines exactly.
    Won,
    /// A mine was revealed.
    Lost,
}

/// What one flag action did.
#[derive(Clone, Copy, Debug, PartialEq, Eq, Structural)]
pub struct FlagOutcome {
    /// This action won the game.
    pub won: bool,
    /// Flags that may still be set.
    pub flags_remaining: usize,
}

/// What a button did when its position was reported.
#[derive(Clone, Copy, Debug, PartialEq, Eq, Structural)]
pub enum Fired {
    /// The report set off no action.
    Nothing,
    /// A direction went down and asked for a move of the selection.
    Moved,
    /// `REVEAL` came up; the selected cell was revealed with this outcome.
    Revealed(RevealOutcome),
    /// `FLAG` came up; the flag of the selected cell was toggled with this
    /// outcome.
    Flagged(FlagOutcome),
}

/// Seconds from `start` to `now`; zero without a start, or with one that lies
/// after `now`.
pub open spec fn seconds_between(start: Option<u64>, now: u64) -> u64 {
    match start {
        Some(s) => if now >= s {
            (now - s) as u64
        } else {
            0
        },
        None => 0,
    }
}

/// The mathematical state of a game session.
pub struct GameState {
    /// The mine field.
    pub field: FieldState,
    /// The index of the selected cell.
    pub selection: nat,
    /// The debounce state of each button.
    pub inputs: Seq<ButtonState>,
    /// When the first action reached the field.
    pub started_at: Option<u64>,
    /// The seconds that the game took, once it is over.
    pub elapsed: Option<u64>,
    /// How the game stands.
    pub status: Status,
}

impl GameState {
    /// The invariant of a session between two operations. The game is won
    /// exactly when every mine carries a flag, on any board that has a mine;
    /// the timer stands exactly when the game is over.
    pub open spec fn valid(self) -> bool {
        &&& self.field.valid()
        &&& self.selection < self.field.cells.len()
        &&& self.inputs.len() == BUTTON_COUNT
        &&& (self.status is Playing <==> self.elapsed is None)
        &&& (self.elapsed is Some ==> self.started_at is Some)
        &&& (self.status is Won ==> self.field.all_mines_flagged())
        &&& (self.field.mine_count > 0 && self.field.all_mines_flagged() ==> self.status is Won)
    }

    /// A session that has just begun: nothing revealed or flagged, the
    /// selection on the first cell, every button up, the timer not started.
    pub open spec fn is_new(self) -> bool {
        &&& self.field.fresh()
        &&& self.field.flags_left == self.field.mine_count
        &&& self.selection == 0
        &&& self.inputs.len() == BUTTON_COUNT
        &&& forall|i: int|
            0 <= i < self.inputs.len() ==> #[trigger] self.inputs[i] == ButtonState::released()
        &&& self.started_at is None
        &&& self.elapsed is None
        &&& self.status is Playing
    }

    /// An action on cell `index` reaches the field: the game goes on and the
    /// cell is hidden.
    pub open spec fn acts_on(self, index: int) -> bool {
        self.status is Playing && !self.field.cells[index].revealed
    }

    /// The start of the timer once an action has reached the field at `now`.
    pub open spec fn started(self, now: u64) -> Option<u64> {
        if self.started_at is Some {
            self.started_at
        } else {
            Some(now)
        }
    }

    /// The state after a reveal of cell `index` at `now`. An action that
    /// reaches the field starts the timer. A mine ends the game as lost and
    /// stops the timer, with the field as it was; any other cell opens as
    /// `FieldState::after_reveal` says.
    pub open spec fn after_reveal(self, index: int, now: u64) -> GameState {
        if !self.acts_on(index) {
            self
        } else if self.field.cells[index].has_mine {
            GameState {
                started_at: self.started(now),
                elapsed: Some(seconds_between(self.started(now), now)),
                status: Status::Lost,
                ..self
            }
        } else {
            GameState {
                field: self.field.after_reveal(index),
                started_at: self.started(now),
                ..self
            }
        }
    }

    /// What a reveal of cell `index` reports: nothing if it does not reach the
    /// field, else what the field reports.
    pub open spec fn reveal_outcome(self, index: int) -> RevealOutcome {
        if self.acts_on(index) {
            self.field.reveal_outcome(index)
        } else {
            RevealOutcome { hit_mine: false, flags_delta: 0, cascaded_count: 0 }
        }
    }

    /// The flag action on cell `index` wins the game: it reaches the field,
    /// sets a flag, and every mine then carries one.
    pub open spec fn wins_by_flag(self, index: int) -> bool {
        self.acts_on(index) && self.field.takes_flag(index) && self.field.after_flag(
            index,
        ).all_mines_flagged()
    }

    /// The state after a flag action on cell `index` at `now`. An action that
    /// reaches the field starts the timer and toggles the flag as
    /// `FieldState::after_flag` says; if it wins the game, the timer stops.
    pub open spec fn after_flag(self, index: int, now: u64) -> GameState {
        if !self.acts_on(index) {
            self
        } else if self.wins_by_flag(index) {
            GameState {
                field: self.field.after_flag(index),
                started_at: self.started(now),
                elapsed: Some(seconds_between(self.started(now), now)),
                status: Status::Won,
                ..self
            }
        } else {
            GameState {
                field: self.field.after_flag(index),
                started_at: self.started(now),
                ..self
            }
        }
    }

    /// What a flag action on cell `index` reports: whether it wins the game,
    /// and the flags that are left after it.
    pub open spec fn flag_outcome(self, index: int) -> FlagOutcome {
        FlagOutcome {
            won: self.wins_by_flag(index),
            flags_remaining: if self.acts_on(index) {
                self.field.after_flag(index).flags_left as usize
            } else {
                self.field.flags_left as usize
            },
        }
    }

    /// The state after `button` asked for a move. The selection moves while
    /// the game goes on, and stays once it is over.
    pub open spec fn after_move(self, button: int) -> GameState {
        if self.status is Playing {
            GameState {
                selection: moved(self.field.side as int, self.selection as int, button) as nat,
                ..self
            }
        } else {
            self
        }
    }

    /// The state after the report that button `input` is down, or up, at
    /// `now`. The button takes the report; a direction that went down moves
    /// the selection, `REVEAL` and `FLAG` act on the selected cell when they
    /// come up.
    pub open spec fn after_input(self, is_down: bool, input: int, now: u64) -> GameState {
        let edge = self.inputs[input].edge_of(is_down);
        let told = GameState {
            inputs: self.inputs.update(input, self.inputs[input].after_edge(is_down)),
            ..self
        };
        if edge == Edge::Pressed && input <= DOWN {
            told.after_move(input)
        } else if edge == Edge::Released && input == REVEAL {
            told.after_reveal(told.selection as int, now)
        } else if edge == Edge::Released && input == FLAG {
            told.after_flag(told.selection as int, now)
        } else {
            told
        }
    }

    /// What the report that button `input` is down, or up, fires.
    pub open spec fn fired_by(self, is_down: bool, input: int) -> Fired {
        let edge = self.inputs[input].edge_of(is_down);
        if edge == Edge::Pressed && input <= DOWN {
            Fired::Moved
        } else if edge == Edge::Released && input == REVEAL {
            Fired::Revealed(self.reveal_outcome(self.selection as int))
        } else if edge == Edge::Released && input == FLAG {
            Fired::Flagged(self.flag_outcome(self.selection as int))
        } else {
            Fired::Nothing
        }
    }

    /// The state after the first `upto` buttons took one tick, in the order of
    /// their numbers. A button that fires moves the selection.
    pub open spec fn ticked(self, upto: nat) -> GameState
        decreases upto,
    {
        if upto == 0 {
            self
        } else {
            let before = self.ticked((upto - 1) as nat);
            let button = upto - 1;
            let told = GameState {
                inputs: before.inputs.update(button, before.inputs[button].after_tick()),
                ..before
            };
            if before.inputs[button].repeats() {
                told.after_move(button)
            } else {
                told
            }
        }
    }

    /// The state after one tick: the four directions take the tick, the other
    /// buttons do not count.
    pub open spec fn after_tick(self) -> GameState {
        self.ticked((DOWN + 1) as nat)
    }

    /// The seconds that the game has taken at `now`: what the timer stopped
    /// at once the game is over, else the seconds since it started.
    pub open spec fn elapsed_at(self, now: u64) -> u64 {
        match self.elapsed {
            Some(seconds) => seconds,
            None => seconds_between(self.started_at, now),
        }
    }
}

/// What the presentation may know of one cell.
#[derive(Clone, Copy, Debug, PartialEq, Eq, Structural)]
pub struct CellView {
    pub revealed: bool,
    pub flagged: bool,
    pub mines_around: u8,
    /// Whether the cell holds a mine; told of a revealed cell only.
    pub has_mine: Option<bool>,
}

/// What the presentation may know of a session.
pub struct Snapshot {
    /// The cells in row-major order.
    pub cells: Vec<CellView>,
    /// The index of the selected cell.
    pub selection: usize,
    /// Flags that may still be set.
    pub flags_remaining: usize,
    /// Seconds that the game has taken.
    pub elapsed_seconds: u64,
    /// How the game stands.
    pub status: Status,
}

/// What the presentation may know of the cell.
pub open spec fn shown(cell: Cell) -> CellView {
    CellView {
        revealed: cell.revealed,
        flagged: cell.flagged,
        mines_around: cell.mines_around,
        has_mine: if cell.revealed {
            Some(cell.has_mine)
        } else {
            None
        },
    }
}

/// A game session.
pub struct Game {
    pub(crate) field: Field,
    pub(crate) current_selection: usize,
    pub(crate) inputs: [ButtonState; 8],
    pub(crate) game_instant: Option<u64>,
    pub(crate) game_duration: Option<u64>,
    pub(crate) status: Status,
}

/// A move keeps a valid session valid.
proof fn lemma_move_valid(state: GameState, button: int)
    requires
        state.valid(),
    ensures
        state.after_move(button).valid(),
{
    lemma_moved(state.field.side as int, state.selection as int, button);
}

/// On a board with a mine, a field on which nothing is flagged has a mine
/// without a flag.
proof fn lemma_fresh_not_won(field: FieldState)
    requires
        field.valid(),
        field.fresh(),
        field.mine_count > 0,
    ensures
        !field.all_mines_flagged(),
{
    if field.all_mines_flagged() {
        assert forall|i: int| 0 <= i < field.mines().len() implies !#[trigger] field.mines()[i] by {
            assert(field.cells[i].has_mine ==> field.cells[i].flagged);
        }
        lemma_count_zero(field.mines());
    }
}

/// A reveal keeps a valid session valid.
proof fn lemma_reveal_valid(state: GameState, index: int, now: u64)
    requires
        state.valid(),
        0 <= index < state.field.cells.len(),
        state.field.after_reveal(index).valid(),
    ensures
        state.after_reveal(index, now).valid(),
{
    let next: GameState = state.after_reveal(index, now);
    if state.acts_on(index) && !state.field.cells[index].has_mine {
        if next.field.mine_count > 0 && next.field.all_mines_flagged() {
            assert forall|i: int| 0 <= i < state.field.cells.len() && (
            #[trigger] state.field.cells[i]).has_mine implies state.field.cells[i].flagged by {
                assert(next.field.cells[i].has_mine);
                assert(next.field.cells[i].flagged);
            }
        }
    }
}

/// A flag action keeps a valid session valid.
proof fn lemma_flag_valid(state: GameState, index: int, now: u64)
    requires
        state.valid(),
        0 <= index < state.field.cells.len(),
        state.field.after_flag(index).valid(),
    ensures
        state.after_flag(index, now).valid(),
{
    let next: GameState = state.after_flag(index, now);
    if state.acts_on(index) && !state.wins_by_flag(index) {
        if next.field.mine_count > 0 && next.field.all_mines_flagged() {
            assert(!state.field.takes_flag(index));
            assert forall|i: int| 0 <= i < state.field.cells.len() && (
            #[trigger] state.field.cells[i]).has_mine implies state.field.cells[i].flagged by {
                assert(next.field.cells[i].has_mine);
                assert(next.field.cells[i].flagged);
            }
        }
    }
}

impl Game {
    /// The state that the contracts speak of.
    pub open(crate) spec fn view(&self) -> GameState {
        GameState {
            field: self.field@,
            selection: self.current_selection as nat,
            inputs: self.inputs@,
            started_at: self.game_instant,
            elapsed: self.game_duration,
            status: self.status,
        }
    }

    /// The session is in a state that the operations accept and leave behind.
    pub open spec fn wf(&self) -> bool {
        self@.valid()
    }

    /// Begins a session on a field on which nothing is revealed or flagged.
    fn on_field(field: Field) -> (game: Game)
        requires
            field.wf(),
            field@.fresh(),
            field@.flags_left == field@.mine_count,
        ensures
            game.wf(),
            game@.is_new(),
            game@.field == field@,
    {
        proof {
            if field@.mine_count > 0 {
                lemma_fresh_not_won(field@);
            }
            field.lemma_fits();
            assert(field@.cells.len() > 0) by (nonlinear_arith)
                requires
                    field@.cells.len() == field@.side * field@.side,
                    field@.side > 0,
            ;
        }
        Game {
            field,
            current_selection: 0,
            inputs: [ButtonState::new(); 8],
            game_instant: None,
            game_duration: None,
            status: Status::Playing,
        }
    }

    /// Begins a session on the standard board: 24 by 24 cells with 99 mines
    /// laid at random.
    pub fn new() -> (game: Game)
        ensures
            game.wf(),
            game@.is_new(),
            game@.field.side == NUMBER_OF_ROWS_AND_COLUMNS,
            game@.field.cells.len() == NUMBER_OF_CELLS,
            game@.field.mine_count == NUMBER_OF_MINES,
    {
        let made = Field::new(NUMBER_OF_MINES, NUMBER_OF_ROWS_AND_COLUMNS);
        Game::on_field(made.unwrap())
    }

    /// Begins a session on a board of `side` by `side` cells with
    /// `mine_count` mines laid at random.
    ///
    /// Fails with `TooManyMines` if the mines would leave no cell free.
    pub fn with_config(mine_count: usize, side: usize) -> (made: Result<Game, ConfigError>)
        requires
            side * side <= usize::MAX,
        ensures
            made is Ok <==> mine_count < side * side,
            made matches Err(e) ==> e == ConfigError::TooManyMines,
            made matches Ok(game) ==> {
                &&& game.wf()
                &&& game@.is_new()
                &&& game@.field.side == side
                &&& game@.field.mine_count == mine_count
            },
    {
        match Field::new(mine_count, side) {
            Ok(field) => Ok(Game::on_field(field)),
            Err(e) => Err(e),
        }
    }

    /// Begins a session on the board with the given mine layout, one entry
    /// for each cell in row-major order.
    ///
    /// Fails with `LayoutSize` if the layout has not `side * side` entries,
    /// and else with `TooManyMines` if it leaves no cell free.
    pub fn with_mines(side: usize, mines: &Vec<bool>) -> (made: Result<Game, ConfigError>)
        requires
            side * side <= usize::MAX,
        ensures
            made is Ok <==> mines@.len() == side * side && count_true(mines@) < mines@.len(),
            made matches Err(e) ==> e == if mines@.len() != side * side {
                ConfigError::LayoutSize
            } else {
                ConfigError::TooManyMines
            },
            made matches Ok(game) ==> {
                &&& game.wf()
                &&& game@.is_new()
                &&& game@.field.side == side
                &&& game@.field.mines() == mines@
            },
    {
        match Field::from_mines(side, mines) {
            Ok(field) => Ok(Game::on_field(field)),
            Err(e) => Err(e),
        }
    }

    /// Throws the session away and begins a new one on a board of the same
    /// size with as many mines, laid at random anew.
    pub fn reset(&mut self)
        requires
            old(self).wf(),
        ensures
            final(self).wf(),
            final(self)@.is_new(),
            final(self)@.field.side == old(self)@.field.side,
            final(self)@.field.mine_count == old(self)@.field.mine_count,
    {
        proof {
            self.field.lemma_fits();
        }
        let made = Field::new(self.field.mine_count(), self.field.side());
        *self = Game::on_field(made.unwrap());
    }

    /// The mine field.
    pub fn field(&self) -> (field: &Field)
        ensures
            field@ == self@.field,
    {
        &self.field
    }

    /// How the game stands.
    pub fn status(&self) -> (status: Status)
        ensures
            status == self@.status,
    {
        self.status
    }

    /// The index of the selected cell.
    pub fn selection(&self) -> (selection: usize)
        ensures
            selection == self@.selection,
    {
        self.current_selection
    }

    /// The debounce state of button `input`.
    pub fn button(&self, input: usize) -> (state: ButtonState)
        requires
            input < BUTTON_COUNT,
        ensures
            state == self@.inputs[input as int],
    {
        self.inputs[input]
    }

    /// The seconds that the game has taken at `now`.
    pub fn elapsed_seconds(&self, now: u64) -> (seconds: u64)
        ensures
            seconds == self@.elapsed_at(now),
    {
        match self.game_duration {
            Some(seconds) => seconds,
            None => Game::seconds_since(self.game_instant, now),
        }
    }

    /// Seconds from `start` to `now`.
    fn seconds_since(start: Option<u64>, now: u64) -> (seconds: u64)
        ensures
            seconds == seconds_between(start, now),
    {
        match start {
            Some(s) => if now >= s {
                now - s
            } else {
                0
            },
            None => 0,
        }
    }

    /// Starts the timer at `now` unless it runs already.
    fn start_timer(&mut self, now: u64)
        ensures
            final(self)@ == (GameState { started_at: old(self)@.started(now), ..old(self)@ }),
    {
        if self.game_instant.is_none() {
            self.game_instant = Some(now);
        }
    }

    /// Ends the game with `status` and stops the timer at `now`.
    fn end_game(&mut self, status: Status, now: u64)
        ensures
            final(self)@ == (GameState {
                status,
                elapsed: Some(seconds_between(old(self)@.started_at, now)),
                ..old(self)@
            }),
    {
        self.status = status;
        self.game_duration = Some(Game::seconds_since(self.game_instant, now));
    }

    /// Reveals the cell at `index` at the time `now`.
    ///
    /// Nothing happens once the game is over, or if the cell is revealed
    /// already. Else the timer starts if it has not yet. A mine ends the game
    /// as lost; any other cell is revealed, with its region if it has no mine
    /// next to it.
    pub fn reveal_from_index(&mut self, index: usize, now: u64) -> (out: RevealOutcome)
        requires
            old(self).wf(),
            index < old(self)@.field.cells.len(),
        ensures
            final(self).wf(),
            final(self)@ == old(self)@.after_reveal(index as int, now),
            out == old(self)@.reveal_outcome(index as int),
            !old(self)@.acts_on(index as int) ==> final(self)@ == old(self)@ && out == (
            RevealOutcome { hit_mine: false, flags_delta: 0, cascaded_count: 0 }),
            out.hit_mine <==> final(self)@.status is Lost && old(self)@.status is Playing,
    {
        if self.status != Status::Playing || self.field.cell(index).revealed {
            return RevealOutcome { hit_mine: false, flags_delta: 0, cascaded_count: 0 };
        }
        self.start_timer(now);
        let out = self.field.reveal_from_index(index);
        if out.hit_mine {
            self.end_game(Status::Lost, now);
        }
        proof {
            lemma_reveal_valid(old(self)@, index as int, now);
        }
        out
    }

    /// Toggles the flag of the cell at `index` at the time `now`.
    ///
    /// Nothing happens once the game is over, or if the cell is revealed.
    /// Else the timer starts if it has not yet, and the flag is cleared, or
    /// set if the budget has a flag left. The game is won when a flag is set
    /// and every mine then carries one.
    pub fn flag_from_index(&mut self, index: usize, now: u64) -> (out: FlagOutcome)
        requires
            old(self).wf(),
            index < old(self)@.field.cells.len(),
        ensures
            final(self).wf(),
            final(self)@ == old(self)@.after_flag(index as int, now),
            out == old(self)@.flag_outcome(index as int),
            !old(self)@.acts_on(index as int) ==> final(self)@ == old(self)@,
            out.won <==> final(self)@.status is Won && old(self)@.status is Playing,
            out.won <==> old(self)@.acts_on(index as int) && old(self)@.field.takes_flag(
                index as int,
            ) && final(self)@.field.flagged() == final(self)@.field.mines(),
    {
        if self.status != Status::Playing || self.field.cell(index).revealed {
            return FlagOutcome { won: false, flags_remaining: self.field.flags_left() };
        }
        self.start_timer(now);
        let placed: bool = self.field.flag_from_index(index);
        proof {
            lemma_win_condition(self@.field);
            lemma_flag_valid(old(self)@, index as int, now);
        }
        let won: bool = placed && self.field.flags_left() == 0 && self.field.all_mines_flagged();
        if won {
            self.end_game(Status::Won, now);
        }
        FlagOutcome { won, flags_remaining: self.field.flags_left() }
    }

    /// Moves the selection as `button` asks, while the game goes on.
    fn move_from_button(&mut self, button: usize)
        requires
            old(self).wf(),
        ensures
            final(self).wf(),
            final(self)@ == old(self)@.after_move(button as int),
    {
        proof {
            self.field.lemma_fits();
            lemma_move_valid(self@, button as int);
        }
        if self.status == Status::Playing {
            self.current_selection = move_selection(
                self.current_selection,
                self.field.side(),
                button,
            );
        }
    }

    /// Takes the report that button `input` is down, or up, at the time
    /// `now`, and carries out what the button fires.
    ///
    /// A direction fires when it goes down: the selection moves one cell,
    /// round the edge of the board. `REVEAL` and `FLAG` fire when they come
    /// up, and act on the selected cell. A report that repeats the one before
    /// it fires nothing.
    pub fn update_input(&mut self, is_down: bool, input: usize, now: u64) -> (fired: Fired)
        requires
            old(self).wf(),
            input < BUTTON_COUNT,
        ensures
            final(self).wf(),
            final(self)@ == old(self)@.after_input(is_down, input as int, now),
            fired == old(self)@.fired_by(is_down, input as int),
    {
        let mut state: ButtonState = self.inputs[input];
        let edge: Edge = state.edge(is_down);
        self.inputs[input] = state;
        if edge == Edge::Pressed && input <= DOWN {
            self.move_from_button(input);
            Fired::Moved
        } else if edge == Edge::Released && input == REVEAL {
            let out = self.reveal_from_index(self.current_selection, now);
            Fired::Revealed(out)
        } else if edge == Edge::Released && input == FLAG {
            let out = self.flag_from_index(self.current_selection, now);
            Fired::Flagged(out)
        } else {
            Fired::Nothing
        }
    }

    /// Advances the session by one tick: each direction that is held counts
    /// down, and moves the selection when its count has run out.
    pub fn update(&mut self)
        requires
            old(self).wf(),
        ensures
            final(self).wf(),
            final(self)@ == old(self)@.after_tick(),
    {
        let mut button: usize = 0;
        while button <= DOWN
            invariant
                button <= DOWN + 1,
                self.wf(),
                self@ == old(self)@.ticked(button as nat),
            decreases DOWN + 1 - button,
        {
            let mut state: ButtonState = self.inputs[button];
            let fires: bool = state.tick();
            self.inputs[button] = state;
            if fires {
                self.move_from_button(button);
            }
            button = button + 1;
        }
    }

    /// What the presentation may know of the session at the time `now`.
    pub fn snapshot(&self, now: u64) -> (shot: Snapshot)
        ensures
            shot.cells@.len() == self@.field.cells.len(),
            forall|i: int|
                0 <= i < shot.cells@.len() ==> #[trigger] shot.cells@[i] == shown(
                    self@.field.cells[i],
                ),
            shot.selection == self@.selection,
            shot.flags_remaining == self@.field.flags_left,
            shot.elapsed_seconds == self@.elapsed_at(now),
            shot.status == self@.status,
    {
        let mut cells: Vec<CellView> = Vec::new();
        let mut i: usize = 0;
        while i < self.field.cell_count()
            invariant
                i <= self@.field.cells.len(),
                cells@.len() == i,
                forall|j: int|
                    0 <= j < i ==> #[trigger] cells@[j] == shown(self@.field.cells[j]),
            decreases self@.field.cells.len() - i,
        {
            let cell = self.field.cell(i);
            cells.push(
                CellView {
                    revealed: cell.revealed,
                    flagged: cell.flagged,
                    mines_around: cell.mines_around,
                    has_mine: if cell.revealed {
                        Some(cell.has_mine)
                    } else {
                        None
                    },
                },
            );
            i = i + 1;
        }
        Snapshot {
            cells,
            selection: self.current_selection,
            flags_remaining: self.field.flags_left(),
            elapsed_seconds: self.elapsed_seconds(now),
            status: self.status,
        }
    }
}

/// On a board with a mine the game is won if and only if the flags cover the
/// mines exactly.
pub proof fn lemma_won_iff_flags_cover_mines(state: GameState)
    requires
        state.valid(),
        state.field.mine_count > 0,
    ensures
        state.status is Won <==> state.field.flagged() == state.field.mines(),
{
    lemma_win_condition(state.field);
}

} // verus!
