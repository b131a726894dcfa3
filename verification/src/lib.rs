//! Tabular reinforcement learning on tic-tac-toe.
//!
//! The crate holds the two abstractions of the field, [`Environment`] and
//! [`Agent`]; the game as an environment, with its states, its rules and the
//! canonical base-3 key of a board; a table of value estimates found by
//! that key; and the epsilon-greedy policy. Every function has a contract
//! over the model in [`position`], and [`theory`] holds what follows from
//! the rules for every position.

pub mod agent;
pub mod color;
pub mod encoding;
pub mod environment;
pub mod game;
pub mod policy;
pub mod position;
pub mod table;
pub mod theory;

pub use agent::Agent;
pub use color::Color;
pub use environment::{Environment, TicTacToeEnv};
pub use game::{Game, IllegalAction, Transition};
pub use position::{GameResult, Position};
pub use table::ValueTable;
