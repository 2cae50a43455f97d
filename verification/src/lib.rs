//! Minesweeper game logic: the board, mine placement, flood-fill reveal,
//! chording, flagging and the win/lose rules, with their contracts.

pub mod cell;
pub mod board;
pub mod lemmas;
pub mod cascade;
pub mod layout;
pub mod rng;
pub mod grid;
pub mod laws;
pub mod session;
