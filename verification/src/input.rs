//! Debouncing of one button: edges, and the repeat of a button that is held.
//!
//! A button reports an edge when it goes down after being up, or up after
//! being down, and never while it stays as it is. A button that is held
//! counts ticks down, fires when the count has run out, and starts over.
//!
//! There are eight buttons. The four directions fire when they go down and
//! repeat while they are held; `REVEAL` and `FLAG` fire when they come up;
//! `SELECT` and `START` are tracked and fire nothing.

use vstd::prelude::*;

verus! {

/// Button that moves the selection one column to the right.
pub const RIGHT: usize = 0;

/// Button that moves the selection one column to the left.
pub const LEFT: usize = 1;

/// Button that moves the selection one row up.
pub const UP: usize = 2;

/// Button that moves the selection one row down.
pub const DOWN: usize = 3;

/// Button that reveals the selected cell when it comes up.
pub const REVEAL: usize = 4;

/// Button that toggles the flag of the selected cell when it comes up.
pub const FLAG: usize = 5;

/// Button without an action of its own.
pub const SELECT: usize = 6;

/// Button without an action of its own.
pub const START: usize = 7;

/// The number of buttons.
pub const BUTTON_COUNT: usize = 8;

/// Ticks between two firings of a button that is held.
pub const INITIAL_REPEAT_DELAY: u8 = 15;

/// What a report of a button's position meant.
#[derive(Clone, Copy, Debug, PartialEq, Eq, Structural)]
pub enum Edge {
    /// The button is where it was.
    Held,
    /// The button went down.
    Pressed,
    /// The button came up.
    Released,
}

/// The debounce state of one button.
#[derive(Clone, Copy, Debug, PartialEq, Eq, Structural)]
pub struct ButtonState {
    /// The button is down.
    pub pressed: bool,
    /// Ticks until the button fires again while it is held.
    pub ticks_until_action: u8,
}

impl ButtonState {
    /// The state of a button that is up.
    pub open spec fn released() -> ButtonState {
        ButtonState { pressed: false, ticks_until_action: 0 }
    }

    /// The state of a button that has just gone down.
    pub open spec fn armed() -> ButtonState {
        ButtonState { pressed: true, ticks_until_action: INITIAL_REPEAT_DELAY }
    }

    /// What the report `is_down` means in this state.
    pub open spec fn edge_of(self, is_down: bool) -> Edge {
        if is_down && !self.pressed {
            Edge::Pressed
        } else if !is_down && self.pressed {
            Edge::Released
        } else {
            Edge::Held
        }
    }

    /// The state after the report `is_down`.
    pub open spec fn after_edge(self, is_down: bool) -> ButtonState {
        match self.edge_of(is_down) {
            Edge::Pressed => ButtonState::armed(),
            Edge::Released => ButtonState::released(),
            Edge::Held => self,
        }
    }

    /// The button fires on the next tick: it is held and its count has run
    /// out.
    pub open spec fn repeats(self) -> bool {
        self.pressed && self.ticks_until_action == 0
    }

    /// The state after one tick.
    pub open spec fn after_tick(self) -> ButtonState {
        if !self.pressed {
            self
        } else if self.ticks_until_action == 0 {
            ButtonState::armed()
        } else {
            ButtonState { pressed: true, ticks_until_action: (self.ticks_until_action - 1) as u8 }
        }
    }

    /// The state after `n` ticks.
    pub open spec fn after_ticks(self, n: nat) -> ButtonState
        decreases n,
    {
        if n == 0 {
            self
        } else {
            self.after_ticks((n - 1) as nat).after_tick()
        }
    }

    /// A button that is up.
    pub fn new() -> (state: ButtonState)
        ensures
            state == ButtonState::released(),
    {
        ButtonState { pressed: false, ticks_until_action: 0 }
    }

    /// Takes the report that the button is down, or up, and says what it
    /// meant.
    pub fn edge(&mut self, is_down: bool) -> (edge: Edge)
        ensures
            edge == old(self).edge_of(is_down),
            *final(self) == old(self).after_edge(is_down),
    {
        if is_down && !self.pressed {
            self.pressed = true;
            self.ticks_until_action = INITIAL_REPEAT_DELAY;
            Edge::Pressed
        } else if !is_down && self.pressed {
            self.pressed = false;
            self.ticks_until_action = 0;
            Edge::Released
        } else {
            Edge::Held
        }
    }

    /// Advances the button by one tick and says whether it fires.
    pub fn tick(&mut self) -> (fires: bool)
        ensures
            fires == old(self).repeats(),
            *final(self) == old(self).after_tick(),
    {
        if !self.pressed {
            false
        } else if self.ticks_until_action == 0 {
            self.ticks_until_action = INITIAL_REPEAT_DELAY;
            true
        } else {
            self.ticks_until_action = self.ticks_until_action - 1;
            false
        }
    }
}

/// A report that repeats the one before it is no edge: a button fires once
/// when it goes down and once when it comes up, however often its position
/// is reported.
pub proof fn lemma_edge_once(state: ButtonState, is_down: bool)
    ensures
        state.after_edge(is_down).edge_of(is_down) == Edge::Held,
        state.after_edge(is_down).after_edge(is_down) == state.after_edge(is_down),
        state.after_edge(is_down).pressed == is_down,
{
}

/// A button that has just gone down and is held does not fire for
/// `INITIAL_REPEAT_DELAY` ticks, fires on the tick after them, and is then
/// as it was when it went down.
pub proof fn lemma_repeat_period(n: nat)
    requires
        n <= INITIAL_REPEAT_DELAY,
    ensures
        ButtonState::armed().after_ticks(n) == (ButtonState {
            pressed: true,
            ticks_until_action: (INITIAL_REPEAT_DELAY - n) as u8,
        }),
        ButtonState::armed().after_ticks(n).repeats() <==> n == INITIAL_REPEAT_DELAY,
        n == INITIAL_REPEAT_DELAY ==> ButtonState::armed().after_ticks(n).after_tick()
            == ButtonState::armed(),
    decreases n,
{
    if n > 0 {
        lemma_repeat_period((n - 1) as nat);
    }
}

} // verus!
