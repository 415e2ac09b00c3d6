//! The maze as it travels on the wire: dimensions plus a row-major vector
//! of integer cell codes. Unknown codes decode to walls, so a client can
//! never walk through a cell it failed to interpret.

use crate::cell::{cell_from_code, lemma_cell_code_round_trip, spec_cell_from_code, CellType};
use crate::maze::{lemma_grid_index, lemma_grid_index_injective, Maze};
use vstd::prelude::*;

verus! {

/// The wire form of a maze.
pub struct ProtoMaze {
    pub width: u32,
    pub height: u32,
    pub cells: Vec<i32>,
}

/// Whether `p` is the encoded form of `m`: same board, each cell encoded
/// by its wire code.
pub open spec fn proto_encodes(p: ProtoMaze, m: Maze) -> bool {
    &&& p.width == m.width
    &&& p.height == m.height
    &&& p.cells@.len() == m.cells@.len()
    &&& forall|i: int| 0 <= i < p.cells@.len() ==> #[trigger] p.cells@[i] == m.cells@[i].spec_code()
}

impl ProtoMaze {
    pub open spec fn wf(self) -> bool {
        &&& 1 <= self.width
        &&& 1 <= self.height
        &&& self.cells@.len() == self.width * self.height
    }

    pub open spec fn in_bounds(self, x: int, y: int) -> bool {
        0 <= x < self.width && 0 <= y < self.height
    }

    /// The decoded cell at `(x, y)`: out-of-board positions and unknown
    /// codes read as walls.
    pub open spec fn spec_get(self, x: int, y: int) -> CellType {
        if self.in_bounds(x, y) {
            spec_cell_from_code(self.cells@[y * self.width + x])
        } else {
            CellType::Wall
        }
    }

    /// Reads and decodes the cell at `(x, y)`.
    pub fn get(&self, x: usize, y: usize) -> (c: CellType)
        requires
            self.wf(),
        ensures
            c == self.spec_get(x as int, y as int),
    {
        if x < self.width as usize && y < self.height as usize {
            let _n = self.cells.len();
            proof {
                lemma_grid_index(x as int, y as int, self.width as int, self.height as int);
            }
            cell_from_code(self.cells[y * (self.width as usize) + x])
        } else {
            CellType::Wall
        }
    }

    /// Encodes and writes the cell at `(x, y)`.
    pub fn set(&mut self, x: usize, y: usize, val: CellType)
        requires
            old(self).wf(),
            old(self).in_bounds(x as int, y as int),
        ensures
            final(self).wf(),
            final(self).width == old(self).width,
            final(self).height == old(self).height,
            final(self).spec_get(x as int, y as int) == val,
            forall|i: int, j: int|
                #![trigger old(self).spec_get(i, j)]
                #![trigger final(self).spec_get(i, j)]
                old(self).in_bounds(i, j) && (i, j) != (x as int, y as int)
                    ==> final(self).spec_get(i, j) == old(self).spec_get(i, j),
    {
        let _n = self.cells.len();
        proof {
            lemma_grid_index(x as int, y as int, self.width as int, self.height as int);
        }
        let idx = y * (self.width as usize) + x;
        self.cells[idx] = val.to_code();
        proof {
            lemma_cell_code_round_trip(val);
            assert forall|i: int, j: int|
                old(self).in_bounds(i, j) && (i, j) != (x as int, y as int)
                    implies final(self).spec_get(i, j) == old(self).spec_get(i, j) by {
                lemma_grid_index(i, j, self.width as int, self.height as int);
                lemma_grid_index_injective(
                    i,
                    j,
                    x as int,
                    y as int,
                    self.width as int,
                    self.height as int,
                );
            }
        }
    }

    /// Decodes the whole board into a maze; unknown codes become walls.
    pub fn to_maze(&self) -> (m: Maze)
        requires
            self.wf(),
        ensures
            m.wf(),
            m.width == self.width,
            m.height == self.height,
            forall|i: int|
                0 <= i < m.cells@.len() ==> #[trigger] m.cells@[i] == spec_cell_from_code(
                    self.cells@[i],
                ),
    {
        let n = self.cells.len();
        let mut cells: Vec<CellType> = Vec::new();
        let mut i: usize = 0;
        while i < n
            invariant
                n == self.cells@.len(),
                i <= n,
                cells@.len() == i,
                forall|j: int|
                    0 <= j < i ==> #[trigger] cells@[j] == spec_cell_from_code(self.cells@[j]),
            decreases n - i,
        {
            cells.push(cell_from_code(self.cells[i]));
            i += 1;
        }
        Maze { width: self.width as usize, height: self.height as usize, cells }
    }

    /// Generates a maze and encodes it for the wire: the wire form of
    /// [`Maze::new`], carrying the same guarantees on the encoded board.
    pub fn new(open_cells_x: usize, open_cells_y: usize) -> (p: ProtoMaze)
        requires
            1 <= open_cells_x,
            1 <= open_cells_y,
            (2 * open_cells_x + 1) * (2 * open_cells_y + 1) <= usize::MAX,
            2 * open_cells_x + 1 <= u32::MAX,
            2 * open_cells_y + 1 <= u32::MAX,
        ensures
            p.wf(),
            p.width == 2 * open_cells_x + 1,
            p.height == 2 * open_cells_y + 1,
            exists|m: Maze|
                {
                    &&& #[trigger] proto_encodes(p, m)
                    &&& m.wf()
                    &&& m.odd_dims()
                    &&& m.width == 2 * open_cells_x + 1
                    &&& m.height == 2 * open_cells_y + 1
                    &&& m.is_open(1, 1)
                    &&& m.connected()
                    &&& (forall|x: int, y: int| #[trigger] m.is_room(x, y) ==> m.is_open(x, y))
                    &&& (forall|x: int, y: int| #[trigger]
                        m.is_open(x, y) ==> (x % 2 == 1 || y % 2 == 1))
                    &&& m.open_cells_interior()
                    &&& m.corridors_flanked()
                    &&& m.total_rooms() == open_cells_x * open_cells_y
                    &&& m.open_room_count() == m.total_rooms()
                    &&& m.open_cell_count() == 2 * (open_cells_x * open_cells_y) - 1
                },
    {
        let m = Maze::new(open_cells_x, open_cells_y);
        let p = m.to_proto();
        proof {
            assert(proto_encodes(p, m));
        }
        p
    }
}

impl Maze {
    /// Encodes the board for the wire.
    pub fn to_proto(&self) -> (p: ProtoMaze)
        requires
            self.wf(),
            self.width <= u32::MAX,
            self.height <= u32::MAX,
        ensures
            proto_encodes(p, *self),
            p.wf(),
    {
        let n = self.cells.len();
        let mut codes: Vec<i32> = Vec::new();
        let mut i: usize = 0;
        while i < n
            invariant
                n == self.cells@.len(),
                i <= n,
                codes@.len() == i,
                forall|j: int| 0 <= j < i ==> #[trigger] codes@[j] == self.cells@[j].spec_code(),
            decreases n - i,
        {
            codes.push(self.cells[i].to_code());
            i += 1;
        }
        ProtoMaze { width: self.width as u32, height: self.height as u32, cells: codes }
    }
}

/// Decoding an encoded board gives every cell back.
pub proof fn lemma_proto_round_trip(p: ProtoMaze, m: Maze)
    requires
        proto_encodes(p, m),
    ensures
        forall|i: int|
            0 <= i < p.cells@.len() ==> spec_cell_from_code(#[trigger] p.cells@[i]) == m.cells@[i],
{
    assert forall|i: int| 0 <= i < p.cells@.len() implies spec_cell_from_code(
        #[trigger] p.cells@[i],
    ) == m.cells@[i] by {
        lemma_cell_code_round_trip(m.cells@[i]);
    }
}

} // verus!
