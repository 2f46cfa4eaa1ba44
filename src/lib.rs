//! Rules engine of a falling-block puzzle game: the piece catalog, the board
//! of settled cells with line clearing, a bag randomizer, and the game session
//! that ties them together under gravity and player input.
pub mod bag;
pub mod board;
pub mod game;
pub mod pieces;
