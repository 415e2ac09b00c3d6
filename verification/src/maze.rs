//! The maze grid: a row-major board of cells, its well-formedness, and
//! the reachability relation that the generator's connectivity guarantee
//! is stated over.

use crate::cell::CellType;
use vstd::prelude::*;

verus! {

/// A maze: a `width * height` board of cells stored row-major, so the
/// cell at `(x, y)` sits at index `y * width + x`.
pub struct Maze {
    pub width: usize,
    pub height: usize,
    pub cells: Vec<CellType>,
}

/// Whether two positions are one cell apart on one axis.
pub open spec fn adjacent(a: (int, int), b: (int, int)) -> bool {
    ||| a.0 == b.0 && (b.1 == a.1 + 1 || b.1 == a.1 - 1)
    ||| a.1 == b.1 && (b.0 == a.0 + 1 || b.0 == a.0 - 1)
}

impl Maze {
    /// Well-formedness: the cell vector covers the whole board.
    pub open spec fn wf(self) -> bool {
        &&& 1 <= self.width
        &&& 1 <= self.height
        &&& self.cells@.len() == self.width * self.height
    }

    /// Both dimensions odd and large enough to hold the room lattice:
    /// rooms sit at odd coordinates, separated by wall rows and columns.
    pub open spec fn odd_dims(self) -> bool {
        &&& self.width % 2 == 1
        &&& self.height % 2 == 1
        &&& self.width >= 3
        &&& self.height >= 3
    }

    pub open spec fn in_bounds(self, x: int, y: int) -> bool {
        0 <= x < self.width && 0 <= y < self.height
    }

    pub open spec fn cell_at(self, x: int, y: int) -> CellType {
        self.cells@[y * self.width + x]
    }

    pub open spec fn is_open(self, x: int, y: int) -> bool {
        self.in_bounds(x, y) && self.cell_at(x, y) == CellType::Open
    }

    /// A room position: an odd coordinate pair strictly inside the border.
    pub open spec fn is_room(self, x: int, y: int) -> bool {
        &&& 1 <= x <= self.width - 2
        &&& 1 <= y <= self.height - 2
        &&& x % 2 == 1
        &&& y % 2 == 1
    }

    /// A path of open cells from the start room `(1, 1)`, each step one
    /// cell on one axis.
    pub open spec fn is_open_path(self, p: Seq<(int, int)>) -> bool {
        &&& p.len() >= 1
        &&& p[0] == (1int, 1int)
        &&& forall|i: int| 0 <= i < p.len() ==> self.is_open((#[trigger] p[i]).0, p[i].1)
        &&& forall|i: int| 0 < i < p.len() ==> adjacent(p[i - 1], #[trigger] p[i])
    }

    /// Whether `(x, y)` can be reached from the start room `(1, 1)`
    /// walking only on open cells.
    pub open spec fn reachable(self, x: int, y: int) -> bool {
        exists|p: Seq<(int, int)>| #[trigger] self.is_open_path(p) && p.last() == (x, y)
    }

    /// Every open cell of the maze is reachable from the start room.
    pub open spec fn connected(self) -> bool {
        forall|x: int, y: int| #[trigger] self.is_open(x, y) ==> self.reachable(x, y)
    }

    /// Every open cell lies strictly inside the border: the outermost
    /// ring of cells is all wall.
    pub open spec fn open_cells_interior(self) -> bool {
        forall|x: int, y: int| #[trigger]
            self.is_open(x, y) ==> 1 <= x <= self.width - 2 && 1 <= y <= self.height - 2
    }

    /// Every open cell on an even column has the cells left and right of
    /// it open, and every open cell on an even row has the cells above
    /// and below it open: a carved corridor cell joins the two rooms it
    /// sits between.
    pub open spec fn corridors_flanked(self) -> bool {
        &&& forall|x: int, y: int| #[trigger]
            self.is_open(x, y) && x % 2 == 0 ==> self.is_open(x - 1, y) && self.is_open(x + 1, y)
        &&& forall|x: int, y: int| #[trigger]
            self.is_open(x, y) && y % 2 == 0 ==> self.is_open(x, y - 1) && self.is_open(x, y + 1)
    }

    /// Returns the cell at `(x, y)`; coordinates outside the board read
    /// as walls, so callers can probe any position without a bounds
    /// obligation.
    pub fn get(&self, x: usize, y: usize) -> (c: CellType)
        requires
            self.wf(),
        ensures
            c == if self.in_bounds(x as int, y as int) {
                self.cell_at(x as int, y as int)
            } else {
                CellType::Wall
            },
    {
        if x < self.width && y < self.height {
            let _n = self.cells.len();
            proof {
                lemma_grid_index(x as int, y as int, self.width as int, self.height as int);
            }
            self.cells[y * self.width + x]
        } else {
            CellType::Wall
        }
    }

    /// Writes the cell at `(x, y)`. Only maze generation writes cells;
    /// the maze is read-only once generated.
    pub fn set(&mut self, x: usize, y: usize, val: CellType)
        requires
            old(self).wf(),
            old(self).in_bounds(x as int, y as int),
        ensures
            final(self).wf(),
            final(self).width == old(self).width,
            final(self).height == old(self).height,
            final(self).cell_at(x as int, y as int) == val,
            forall|i: int, j: int|
                #![trigger old(self).cell_at(i, j)]
                #![trigger final(self).cell_at(i, j)]
                old(self).in_bounds(i, j) && (i, j) != (x as int, y as int)
                    ==> final(self).cell_at(i, j) == old(self).cell_at(i, j),
    {
        let _n = self.cells.len();
        proof {
            lemma_grid_index(x as int, y as int, self.width as int, self.height as int);
        }
        let idx = y * self.width + x;
        self.cells[idx] = val;
        proof {
            assert forall|i: int, j: int|
                old(self).in_bounds(i, j) && (i, j) != (x as int, y as int)
                    implies final(self).cell_at(i, j) == old(self).cell_at(i, j) by {
                lemma_grid_index(i, j, self.width as int, self.height as int);
                lemma_grid_index_injective(
                    i,
                    j,
                    x as int,
                    y as int,
                    self.width as int,
                    self.height as int,
                );
            }
        }
    }
}

/// A row-major index stays within the board.
pub proof fn lemma_grid_index(x: int, y: int, w: int, h: int)
    requires
        0 <= x < w,
        0 <= y < h,
    ensures
        0 <= y * w + x < w * h,
{
    assert(y * w + x < w * h) by (nonlinear_arith)
        requires
            0 <= x < w,
            0 <= y < h,
    ;
    assert(y * w >= 0) by (nonlinear_arith)
        requires
            0 <= y,
            0 < w,
    ;
}

/// Distinct in-bounds positions have distinct row-major indices.
pub proof fn lemma_grid_index_injective(x1: int, y1: int, x2: int, y2: int, w: int, h: int)
    requires
        0 <= x1 < w,
        0 <= y1 < h,
        0 <= x2 < w,
        0 <= y2 < h,
        (x1, y1) != (x2, y2),
    ensures
        y1 * w + x1 != y2 * w + x2,
{
    assert(y1 * w + x1 != y2 * w + x2) by (nonlinear_arith)
        requires
            0 <= x1 < w,
            0 <= y1 < h,
            0 <= x2 < w,
            0 <= y2 < h,
            (x1, y1) != (x2, y2),
    ;
}

/// A path of open cells stays a path in a maze of the same size whose
/// open cells include the first maze's.
pub proof fn lemma_path_still_open(m1: Maze, m2: Maze, p: Seq<(int, int)>)
    requires
        m1.is_open_path(p),
        m1.width == m2.width,
        m1.height == m2.height,
        forall|x: int, y: int| #[trigger] m1.is_open(x, y) ==> m2.is_open(x, y),
    ensures
        m2.is_open_path(p),
{
    assert forall|i: int| 0 <= i < p.len() implies m2.is_open((#[trigger] p[i]).0, p[i].1) by {
        assert(m1.is_open(p[i].0, p[i].1));
    }
}

/// Reachability is preserved when open cells are only added.
pub proof fn lemma_reachable_monotone(m1: Maze, m2: Maze, x: int, y: int)
    requires
        m1.reachable(x, y),
        m1.width == m2.width,
        m1.height == m2.height,
        forall|i: int, j: int| #[trigger] m1.is_open(i, j) ==> m2.is_open(i, j),
    ensures
        m2.reachable(x, y),
{
    let p = choose|p: Seq<(int, int)>| #[trigger] m1.is_open_path(p) && p.last() == (x, y);
    lemma_path_still_open(m1, m2, p);
    assert(m2.is_open_path(p) && p.last() == (x, y));
}

/// The start room reaches itself once it is open.
pub proof fn lemma_reachable_start(m: Maze)
    requires
        m.is_open(1, 1),
    ensures
        m.reachable(1, 1),
{
    let p: Seq<(int, int)> = seq![(1int, 1int)];
    assert(m.is_open_path(p));
    assert(p.last() == (1int, 1int));
}

/// An open cell adjacent to a reachable cell is reachable.
pub proof fn lemma_reachable_extend(m: Maze, x1: int, y1: int, x2: int, y2: int)
    requires
        m.reachable(x1, y1),
        m.is_open(x2, y2),
        adjacent((x1, y1), (x2, y2)),
    ensures
        m.reachable(x2, y2),
{
    let p = choose|p: Seq<(int, int)>| #[trigger] m.is_open_path(p) && p.last() == (x1, y1);
    let q = p.push((x2, y2));
    assert(q[0] == p[0]);
    assert forall|i: int| 0 <= i < q.len() implies m.is_open((#[trigger] q[i]).0, q[i].1) by {
        if i < p.len() {
            assert(q[i] == p[i]);
            assert(m.is_open(p[i].0, p[i].1));
        } else {
            assert(q[i] == (x2, y2));
        }
    }
    assert forall|i: int| 0 < i < q.len() implies adjacent(q[i - 1], #[trigger] q[i]) by {
        if i < p.len() {
            assert(q[i] == p[i]);
            assert(q[i - 1] == p[i - 1]);
            assert(adjacent(p[i - 1], p[i]));
        } else {
            assert(q[i] == (x2, y2));
            assert(q[i - 1] == p[p.len() - 1]);
            assert(p.last() == (x1, y1));
        }
    }
    assert(m.is_open_path(q) && q.last() == (x2, y2));
}

} // verus!
