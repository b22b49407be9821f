//! A chess rules engine: board, pseudo-legal move generation, check
//! detection, legality filtering, move application and end-of-game tests.

pub mod board;
pub mod player;
pub mod rules;
pub mod pieces;
pub mod check;
pub mod game;
pub mod laws;
pub mod notation;
pub mod text;
