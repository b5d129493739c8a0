//! A two-player tic-tac-toe game core: tiles, the board, turn alternation,
//! move validation and win/draw detection.
pub mod tiles;
pub mod game;
pub mod render;
