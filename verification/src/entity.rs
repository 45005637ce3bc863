//! The state of one cell.

use vstd::prelude::*;

verus! {

#[derive(Clone, Copy, Debug, PartialEq, Eq, Structural)]
pub enum Cell {
    Dead,
    Alive,
}

impl Cell {
    /// Whether the cell is alive.
    pub fn to_bool(&self) -> (res: bool)
        ensures
            res == (*self == Cell::Alive),
    {
        match self {
            Cell::Alive => true,
            Cell::Dead => false,
        }
    }
}

} // verus!
