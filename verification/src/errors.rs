use vstd::prelude::*;

verus! {

/// Returned when a coordinate lies outside the grid of a board.
#[derive(Debug, Clone, Copy, PartialEq, Eq, Structural)]
pub struct OutOfBoundsError;

} // verus!
