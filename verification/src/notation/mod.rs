pub mod algebraic;
pub mod fen;
pub mod text;

pub use algebraic::{AlgebraicNotation, AlgebraicNotationError};
pub use fen::FenError;
