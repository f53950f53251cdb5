//! A verified engine for the board game Othello (Reversi).
//!
//! The engine is pure state transformation: an outside driver renders the
//! board, obtains a move, submits it, and asks the engine to advance the
//! turn, until the engine reports that the game is over.

pub mod counting;
pub mod cell;
pub mod position;
pub mod capture;
pub mod cache;
pub mod board;
pub mod manager;
pub mod text;
