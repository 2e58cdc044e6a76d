//! A chess position model and pseudo-legal move generator.
//!
//! A `Board` holds an 8x8 occupancy grid, the side to move, castling rights
//! and an optional en-passant target square.  It can be decoded from
//! Forsyth-Edwards Notation (FEN), rendered as an ASCII grid, and queried for
//! the pseudo-legal moves of the side to move (sliding pieces, knights and
//! pawns; king moves, castling and check detection are out of scope).

pub mod geometry;
pub mod pieces;
pub mod board;
pub mod moves;
pub mod fen;
pub mod render;
