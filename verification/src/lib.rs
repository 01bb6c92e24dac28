//! Bitboard move generation and alpha-beta search for a two-player cannon game
//! on an 8x8 grid with one castle square per side.

pub mod bitboard;
pub mod bits;
pub mod board;
pub mod cannon_move;
pub mod color;
pub mod defs;
pub mod eval;
pub mod geometry;
pub mod grid;
pub mod movegen;
pub mod position;
pub mod rules;
pub mod search;
pub mod square;
pub mod tables;
pub mod transposition;
