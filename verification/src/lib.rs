//! The rules of a drop-board game for two players on a grid of seven columns
//! and six rows: the legal moves, the move itself, and the state of the game.
pub mod bitboards;
pub mod board;
pub mod games;
pub mod grid_patterns;
pub mod grids;
pub mod laws;
pub mod render;
pub mod strategies;

pub use bitboards::BitBoard;
pub use board::{Board, InvalidMove, Move, Player};
pub use games::{play_out, Played};
pub use grid_patterns::{find_four_in_a_row, Pattern};
pub use grids::{Color, Grid, HighlightedGrid, ParseGridError};
pub use strategies::{RandomStrategy, Strategy};
