//! The rules of chess: a board with moves that can be taken back, the rules
//! by which the pieces move, and the search for check and mate.

pub mod board;
pub mod check;
pub mod errors;
pub mod moves;
pub mod notation;
pub mod piece;

pub use board::{Board, Coord};
pub use piece::{Piece, PieceType};
