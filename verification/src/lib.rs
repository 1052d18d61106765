//! A Minesweeper game-state engine with machine-checked contracts.

pub mod board;
pub mod cascade;
pub mod cell;
pub mod count;
pub mod cursor;
pub mod field;
pub mod flags;
pub mod game;
pub mod grid;
pub mod input;
pub mod placement;
