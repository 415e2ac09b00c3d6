//! Grid cells and their wire encoding.

use vstd::prelude::*;

verus! {

/// One cell of the maze grid.
#[derive(Clone, Copy, PartialEq, Eq, Debug, Structural)]
pub enum CellType {
    Open,
    Wall,
}

impl CellType {
    /// The character a cell is drawn as: a full block for a wall, a blank
    /// for an open cell.
    pub open spec fn spec_to_char(self) -> char {
        match self {
            CellType::Wall => '\u{2588}',
            CellType::Open => ' ',
        }
    }

    pub fn to_char(&self) -> (c: char)
        ensures
            c == self.spec_to_char(),
    {
        match self {
            CellType::Wall => '\u{2588}',
            CellType::Open => ' ',
        }
    }

    /// The integer a cell is sent as on the wire.
    pub open spec fn spec_code(self) -> i32 {
        match self {
            CellType::Open => 0,
            CellType::Wall => 1,
        }
    }

    pub fn to_code(&self) -> (c: i32)
        ensures
            c == self.spec_code(),
    {
        match self {
            CellType::Open => 0,
            CellType::Wall => 1,
        }
    }
}

/// The cell a wire integer decodes to. Any code that is not the open
/// cell's code decodes to a wall: treating unknown codes as walls keeps a
/// client from walking through a cell it cannot interpret.
pub open spec fn spec_cell_from_code(c: i32) -> CellType {
    if c == 0 {
        CellType::Open
    } else {
        CellType::Wall
    }
}

pub fn cell_from_code(c: i32) -> (r: CellType)
    ensures
        r == spec_cell_from_code(c),
{
    if c == 0 {
        CellType::Open
    } else {
        CellType::Wall
    }
}

/// Encoding a cell and decoding the code gives the cell back.
pub proof fn lemma_cell_code_round_trip(c: CellType)
    ensures
        spec_cell_from_code(c.spec_code()) == c,
{
}

} // verus!
