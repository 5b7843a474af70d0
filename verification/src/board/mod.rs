use std::ops::Add;
use vstd::prelude::*;
use vstd::std_specs::ops::AddSpecImpl;

pub mod board;
pub mod board_info;
pub mod model;


pub use board::Board;
pub use board_info::BoardInfo;
pub use board_info::CastlingRights;
pub use board_info::CastlingTable;

verus! {

/// A cell address: row and column, counted from the top left corner.
#[derive(Debug, Clone, Copy, PartialEq, Eq, Hash, Structural)]
pub struct Coord {
    pub row: i32,
    pub col: i32,
}

/// Anything that sits on a cell of the grid.
pub trait HasCoordinates {
    /// The cell the value sits on.
    spec fn coordinates(&self) -> Coord;

    fn get_coordinates(&self) -> (c: Coord)
        ensures
            c == self.coordinates(),
    ;
}

impl HasCoordinates for Coord {
    open spec fn coordinates(&self) -> Coord {
        *self
    }

    fn get_coordinates(&self) -> (c: Coord) {
        *self
    }
}

impl Coord {
    /// The cell `k` steps of `step` away from this one, as a pair of integers:
    /// it may lie outside every board.
    pub open spec fn stepped(self, step: Coord, k: int) -> (int, int) {
        (self.row + k * step.row, self.col + k * step.col)
    }

    /// The row-major scan reaches `self` strictly before `other`.
    pub open spec fn precedes(self, other: Coord) -> bool {
        self.row < other.row || (self.row == other.row && self.col < other.col)
    }
}

impl AddSpecImpl for Coord {
    open spec fn obeys_add_spec() -> bool {
        true
    }

    open spec fn add_req(self, other: Coord) -> bool {
        &&& i32::MIN <= self.row + other.row <= i32::MAX
        &&& i32::MIN <= self.col + other.col <= i32::MAX
    }

    open spec fn add_spec(self, other: Coord) -> Coord {
        Coord { row: (self.row + other.row) as i32, col: (self.col + other.col) as i32 }
    }
}

impl Add for Coord {
    type Output = Coord;

    /// Component-wise sum of two coordinates.
    fn add(self, other: Coord) -> (sum: Coord) {
        Coord { row: self.row + other.row, col: self.col + other.col }
    }
}

} // verus!
