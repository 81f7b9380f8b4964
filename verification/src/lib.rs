//! Rules engine of a two-player stone-pushing game on a hexagonal board.
//!
//! The crate owns the board state and decides whether a requested move is
//! legal and how the board changes when it is.
//!
//! - [`cord`]: cube coordinates and their geometry;
//! - [`stone`]: stones, players and errors;
//! - [`grid`]: the board as a mathematical value;
//! - [`board`]: the board and its storage;
//! - [`rules`]: what a move does to a grid;
//! - [`push`]: the moves on the board;
//! - [`laws`]: what holds of every move.

pub mod board;
pub mod cord;
pub mod grid;
pub mod laws;
pub mod push;
pub mod rules;
pub mod stone;

pub use crate::board::Board;
pub use crate::board::Game;
pub use crate::board::Move;
pub use crate::cord::Cord;
pub use crate::stone::BoardError;
pub use crate::stone::Player;
pub use crate::stone::Stone;
