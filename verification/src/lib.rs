//! Rules core of a two-player chess game on an 8x8 board: coordinates and
//! their two-character notation, tiles, the board, per-piece legal-move
//! generation, and the guarded state transition that applies a move only if
//! it is legal.

pub mod board;
pub mod coord;
pub mod error;
pub mod game;
pub mod layout;
pub mod moves;
pub mod tile;

pub use board::Board;
pub use coord::Coord;
pub use error::Error;
pub use game::GameState;
pub use moves::legal_destinations;
pub use tile::{Color, Piece, Tile};
