//! Counting open room cells. Rooms are numbered row-major; the count of
//! open rooms drives the generator's loop and yields, at the end, that
//! every room cell has been opened.

use crate::cell::CellType;
use crate::maze::Maze;
use vstd::arithmetic::div_mod::lemma_fundamental_div_mod_converse;
use vstd::prelude::*;

verus! {

impl Maze {
    /// How many room columns the board has.
    pub open spec fn rooms_x(self) -> int {
        (self.width - 1) / 2
    }

    /// How many room rows the board has.
    pub open spec fn rooms_y(self) -> int {
        (self.height - 1) / 2
    }

    /// How many room cells the board has.
    pub open spec fn total_rooms(self) -> int {
        self.rooms_x() * self.rooms_y()
    }

    /// The position of the room with row-major number `r`.
    pub open spec fn room_pos(self, r: int) -> (int, int) {
        (2 * (r % self.rooms_x()) + 1, 2 * (r / self.rooms_x()) + 1)
    }

    /// The row-major number of the room at `(x, y)`.
    pub open spec fn room_index(self, x: int, y: int) -> int {
        ((y - 1) / 2) * self.rooms_x() + (x - 1) / 2
    }

    /// How many of the rooms numbered below `r` are open.
    pub open spec fn open_rooms_upto(self, r: int) -> int
        decreases r,
    {
        if r <= 0 {
            0
        } else {
            self.open_rooms_upto(r - 1) + if self.is_open(
                self.room_pos(r - 1).0,
                self.room_pos(r - 1).1,
            ) {
                1int
            } else {
                0
            }
        }
    }

    /// How many room cells are open.
    pub open spec fn open_room_count(self) -> int {
        self.open_rooms_upto(self.total_rooms())
    }

    /// The position of the cell with row-major number `r`.
    pub open spec fn cell_pos(self, r: int) -> (int, int) {
        (r % (self.width as int), r / (self.width as int))
    }

    /// How many of the cells numbered below `r` are open.
    pub open spec fn open_cells_upto(self, r: int) -> int
        decreases r,
    {
        if r <= 0 {
            0
        } else {
            self.open_cells_upto(r - 1) + if self.is_open(
                self.cell_pos(r - 1).0,
                self.cell_pos(r - 1).1,
            ) {
                1int
            } else {
                0
            }
        }
    }

    /// How many cells of the whole board are open.
    pub open spec fn open_cell_count(self) -> int {
        self.open_cells_upto(self.width * self.height)
    }

    /// Whether two rooms are two cells apart on one axis, i.e. separated
    /// by exactly one wall cell.
    pub open spec fn rooms_linked(self, a: (int, int), b: (int, int)) -> bool {
        &&& self.is_room(a.0, a.1)
        &&& self.is_room(b.0, b.1)
        &&& ((a.0 == b.0 && (b.1 == a.1 + 2 || b.1 == a.1 - 2)) || (a.1 == b.1 && (b.0 == a.0 + 2
            || b.0 == a.0 - 2)))
    }

    /// A still-walled room that the generator may open next: it has an
    /// already-open room on the other side of one wall cell.
    pub open spec fn carvable(self, a: (int, int)) -> bool {
        &&& self.is_room(a.0, a.1)
        &&& !self.is_open(a.0, a.1)
        &&& exists|b: (int, int)| #[trigger] self.rooms_linked(a, b) && self.is_open(b.0, b.1)
    }
}

/// The room numbered `r` is a room position, and numbering is the inverse
/// of `room_pos`.
pub proof fn lemma_room_pos_is_room(m: Maze, r: int)
    requires
        m.odd_dims(),
        0 <= r < m.total_rooms(),
    ensures
        m.is_room(m.room_pos(r).0, m.room_pos(r).1),
        m.room_index(m.room_pos(r).0, m.room_pos(r).1) == r,
{
    let ox = m.rooms_x();
    let oy = m.rooms_y();
    assert(ox >= 1 && oy >= 1);
    let q = r / ox;
    let rm = r % ox;
    vstd::arithmetic::div_mod::lemma_fundamental_div_mod(r, ox);
    vstd::arithmetic::div_mod::lemma_mod_pos_bound(r, ox);
    assert(0 <= rm < ox);
    assert(q >= 0) by (nonlinear_arith)
        requires
            r >= 0,
            ox >= 1,
            r == q * ox + rm,
            rm < ox,
    ;
    assert(q < oy) by (nonlinear_arith)
        requires
            r < ox * oy,
            ox >= 1,
            r == q * ox + rm,
            0 <= rm,
            0 <= q,
    ;
    let x = 2 * rm + 1;
    let y = 2 * q + 1;
    assert(x <= m.width - 2 && y <= m.height - 2);
    assert((x - 1) / 2 == rm && (y - 1) / 2 == q);
    assert(m.room_index(x, y) == r);
}

/// Each room position has a number below the total, and `room_pos` is the
/// inverse of the numbering.
pub proof fn lemma_room_index_inverse(m: Maze, x: int, y: int)
    requires
        m.odd_dims(),
        m.is_room(x, y),
    ensures
        0 <= m.room_index(x, y) < m.total_rooms(),
        m.room_pos(m.room_index(x, y)) == (x, y),
{
    let ox = m.rooms_x();
    let oy = m.rooms_y();
    let qx = (x - 1) / 2;
    let qy = (y - 1) / 2;
    assert(2 * qx + 1 == x && 2 * qy + 1 == y);
    assert(0 <= qx < ox && 0 <= qy < oy);
    let idx = qy * ox + qx;
    assert(0 <= idx < ox * oy) by (nonlinear_arith)
        requires
            0 <= qx < ox,
            0 <= qy < oy,
            idx == qy * ox + qx,
    ;
    lemma_fundamental_div_mod_converse(idx, ox, qy, qx);
    assert(idx % ox == qx && idx / ox == qy);
}

/// Opening one walled room raises the open-room count of every prefix
/// that covers it by one and leaves every other prefix count unchanged.
pub proof fn lemma_count_after_room_opened(m1: Maze, m2: Maze, px: int, py: int, r: int)
    requires
        m1.odd_dims(),
        m2.width == m1.width,
        m2.height == m1.height,
        m1.is_room(px, py),
        !m1.is_open(px, py),
        m2.is_open(px, py),
        forall|x: int, y: int|
            m1.in_bounds(x, y) && (x, y) != (px, py) ==> m2.cell_at(x, y) == #[trigger] m1.cell_at(
                x,
                y,
            ),
        0 <= r <= m1.total_rooms(),
    ensures
        m2.open_rooms_upto(r) == m1.open_rooms_upto(r) + if m1.room_index(px, py) < r {
            1int
        } else {
            0
        },
    decreases r,
{
    lemma_room_index_inverse(m1, px, py);
    if r > 0 {
        lemma_count_after_room_opened(m1, m2, px, py, r - 1);
        lemma_room_pos_is_room(m1, r - 1);
        let pos = m1.room_pos(r - 1);
        assert(m2.room_pos(r - 1) == pos);
        if pos == (px, py) {
            assert(m1.room_index(px, py) == r - 1);
        } else {
            assert(m1.in_bounds(pos.0, pos.1));
            assert(m2.cell_at(pos.0, pos.1) == m1.cell_at(pos.0, pos.1));
            assert(m2.is_open(pos.0, pos.1) == m1.is_open(pos.0, pos.1));
            assert(m1.room_index(px, py) != r - 1);
        }
    }
}

/// Opening a cell that is not a room leaves every open-room count
/// unchanged.
pub proof fn lemma_count_after_corridor_opened(m1: Maze, m2: Maze, px: int, py: int, r: int)
    requires
        m1.odd_dims(),
        m2.width == m1.width,
        m2.height == m1.height,
        m1.in_bounds(px, py),
        !m1.is_room(px, py),
        forall|x: int, y: int|
            m1.in_bounds(x, y) && (x, y) != (px, py) ==> m2.cell_at(x, y) == #[trigger] m1.cell_at(
                x,
                y,
            ),
        0 <= r <= m1.total_rooms(),
    ensures
        m2.open_rooms_upto(r) == m1.open_rooms_upto(r),
    decreases r,
{
    if r > 0 {
        lemma_count_after_corridor_opened(m1, m2, px, py, r - 1);
        lemma_room_pos_is_room(m1, r - 1);
        let pos = m1.room_pos(r - 1);
        assert(m2.room_pos(r - 1) == pos);
        assert(pos != (px, py));
        assert(m1.in_bounds(pos.0, pos.1));
        assert(m2.cell_at(pos.0, pos.1) == m1.cell_at(pos.0, pos.1));
        assert(m2.is_open(pos.0, pos.1) == m1.is_open(pos.0, pos.1));
    }
}

/// A prefix of `r` rooms holds between zero and `r` open rooms.
pub proof fn lemma_count_bounds(m: Maze, r: int)
    ensures
        0 <= m.open_rooms_upto(r) <= if r >= 0 {
            r
        } else {
            0
        },
    decreases r,
{
    if r > 0 {
        lemma_count_bounds(m, r - 1);
    }
}

/// Widening a prefix by `b - a` rooms adds at most `b - a` to its count.
pub proof fn lemma_count_window(m: Maze, a: int, b: int)
    requires
        0 <= a <= b,
    ensures
        m.open_rooms_upto(b) <= m.open_rooms_upto(a) + (b - a),
    decreases b - a,
{
    if a < b {
        lemma_count_window(m, a, b - 1);
    }
}

/// When no room is open, every prefix count is zero.
pub proof fn lemma_count_none_open(m: Maze, r: int)
    requires
        m.odd_dims(),
        forall|x: int, y: int| #[trigger] m.is_room(x, y) ==> !m.is_open(x, y),
        r <= m.total_rooms(),
    ensures
        m.open_rooms_upto(r) == 0,
    decreases r,
{
    if r > 0 {
        lemma_count_none_open(m, r - 1);
        lemma_room_pos_is_room(m, r - 1);
    }
}

/// When every room is open, the prefix counts are full.
pub proof fn lemma_count_all_open(m: Maze, r: int)
    requires
        m.odd_dims(),
        forall|x: int, y: int| #[trigger] m.is_room(x, y) ==> m.is_open(x, y),
        r <= m.total_rooms(),
    ensures
        m.open_rooms_upto(r) == if r >= 0 {
            r
        } else {
            0
        },
    decreases r,
{
    if r > 0 {
        lemma_count_all_open(m, r - 1);
        lemma_room_pos_is_room(m, r - 1);
    }
}

/// A full open-room count means every room is open.
pub proof fn lemma_full_count_all_open(m: Maze)
    requires
        m.odd_dims(),
        m.open_room_count() == m.total_rooms(),
    ensures
        forall|x: int, y: int| #[trigger] m.is_room(x, y) ==> m.is_open(x, y),
{
    assert forall|x: int, y: int| #[trigger] m.is_room(x, y) implies m.is_open(x, y) by {
        if !m.is_open(x, y) {
            lemma_room_index_inverse(m, x, y);
            let idx = m.room_index(x, y);
            lemma_room_pos_is_room(m, idx);
            lemma_count_bounds(m, idx);
            assert(m.open_rooms_upto(idx + 1) == m.open_rooms_upto(idx));
            lemma_count_window(m, idx + 1, m.total_rooms());
            assert(false);
        }
    }
}

/// The cell numbered `r` is in bounds, and the row-major index is the
/// inverse of `cell_pos`.
pub proof fn lemma_cell_pos_in_bounds(m: Maze, r: int)
    requires
        m.wf(),
        0 <= r < m.width * m.height,
    ensures
        m.in_bounds(m.cell_pos(r).0, m.cell_pos(r).1),
        m.cell_pos(r).1 * m.width + m.cell_pos(r).0 == r,
{
    let w = m.width as int;
    let h = m.height as int;
    vstd::arithmetic::div_mod::lemma_fundamental_div_mod(r, w);
    vstd::arithmetic::div_mod::lemma_mod_pos_bound(r, w);
    let q = r / w;
    assert(q >= 0) by (nonlinear_arith)
        requires
            r >= 0,
            w >= 1,
            r == q * w + r % w,
            r % w < w,
    ;
    assert(q < h) by (nonlinear_arith)
        requires
            r < w * h,
            w >= 1,
            r == q * w + (r % w),
            0 <= r % w,
            0 <= q,
    ;
}

/// Each in-bounds position has a row-major number below the board size,
/// with `cell_pos` as its inverse.
pub proof fn lemma_cell_index_inverse(m: Maze, x: int, y: int)
    requires
        m.wf(),
        m.in_bounds(x, y),
    ensures
        0 <= y * m.width + x < m.width * m.height,
        m.cell_pos(y * m.width + x) == (x, y),
{
    crate::maze::lemma_grid_index(x, y, m.width as int, m.height as int);
    lemma_fundamental_div_mod_converse(y * m.width + x, m.width as int, y, x);
}

/// Opening one walled cell raises the open-cell count of every prefix
/// that covers it by one and leaves every other prefix count unchanged.
pub proof fn lemma_cell_count_after_open(m1: Maze, m2: Maze, px: int, py: int, r: int)
    requires
        m1.wf(),
        m2.width == m1.width,
        m2.height == m1.height,
        m1.in_bounds(px, py),
        !m1.is_open(px, py),
        m2.is_open(px, py),
        forall|x: int, y: int|
            m1.in_bounds(x, y) && (x, y) != (px, py) ==> m2.cell_at(x, y) == #[trigger] m1.cell_at(
                x,
                y,
            ),
        0 <= r <= m1.width * m1.height,
    ensures
        m2.open_cells_upto(r) == m1.open_cells_upto(r) + if py * m1.width + px < r {
            1int
        } else {
            0
        },
    decreases r,
{
    lemma_cell_index_inverse(m1, px, py);
    if r > 0 {
        lemma_cell_count_after_open(m1, m2, px, py, r - 1);
        lemma_cell_pos_in_bounds(m1, r - 1);
        let pos = m1.cell_pos(r - 1);
        assert(m2.cell_pos(r - 1) == pos);
        if pos == (px, py) {
            assert(py * m1.width + px == r - 1);
        } else {
            assert(m2.cell_at(pos.0, pos.1) == m1.cell_at(pos.0, pos.1));
            assert(m2.is_open(pos.0, pos.1) == m1.is_open(pos.0, pos.1));
            assert(py * m1.width + px != r - 1);
        }
    }
}

/// When no cell is open, every prefix count is zero.
pub proof fn lemma_cell_count_none_open(m: Maze, r: int)
    requires
        m.wf(),
        forall|x: int, y: int| m.in_bounds(x, y) ==> #[trigger] m.cell_at(x, y) == CellType::Wall,
        r <= m.width * m.height,
    ensures
        m.open_cells_upto(r) == 0,
    decreases r,
{
    if r > 0 {
        lemma_cell_count_none_open(m, r - 1);
        lemma_cell_pos_in_bounds(m, r - 1);
    }
}

/// A short open-room count means some room is still walled.
pub proof fn lemma_partial_count_wall_room(m: Maze)
    requires
        m.odd_dims(),
        m.open_room_count() < m.total_rooms(),
    ensures
        exists|x: int, y: int| #[trigger] m.is_room(x, y) && !m.is_open(x, y),
{
    if forall|x: int, y: int| #[trigger] m.is_room(x, y) ==> m.is_open(x, y) {
        lemma_count_all_open(m, m.total_rooms());
        assert(m.total_rooms() >= 0) by (nonlinear_arith)
            requires
                m.rooms_x() >= 1,
                m.rooms_y() >= 1,
                m.total_rooms() == m.rooms_x() * m.rooms_y(),
        ;
        assert(false);
    }
}

} // verus!
