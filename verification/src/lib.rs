//! A stone-placement board game for two sides, in the Reversi family.
//!
//! The crate holds the engine of the game: the grid of cells, the search
//! for the stones that a placement turns over, turn keeping with forced
//! passes, the stone counts of the two sides, and a greedy computer player.
//! Drawing and the window are left to the program that uses the engine.
//!
//! The engine is verified against a mathematical model of the game:
//!
//! - `grid` and `rules` say what a board is and which stones a placement
//!   turns over;
//! - `game` says what a game is and how a placement, a click or a tick
//!   changes it;
//! - `laws` states what holds of every game, with proof;
//! - `stone`, `square`, `player`, `board` and `app` hold the executable
//!   types, each function with a contract over the model.

pub mod app;
pub mod board;
pub mod game;
pub mod grid;
pub mod laws;
pub mod order;
pub mod player;
pub mod rules;
pub mod square;
pub mod stone;
