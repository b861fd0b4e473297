//! A Tetris engine: pieces and their rotations, a board simulator with collision,
//! locking and line clearing, the game engine, and a two-ply placement search.

pub mod pieces;
pub mod grid;
pub mod simulator;
pub mod draw;
pub mod board;
pub mod ai;
pub mod menu;
