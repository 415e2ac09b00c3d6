//! Maze generation: a randomized room-to-room walk that carves two cells
//! at a time (a hunt-and-kill variant with two-step jumps), proved to
//! leave every room open, every open cell reachable from the start room,
//! the border solid wall, and exactly one corridor cell per carved room —
//! `2 * rooms - 1` open cells in all.

use crate::cell::CellType;
use crate::direction::{random_direction, Direction};
use crate::maze::{
    adjacent, lemma_reachable_extend, lemma_reachable_monotone, lemma_reachable_start, Maze,
};
use crate::movement::{move_in_dir, spec_move};
use crate::rooms::{
    lemma_cell_count_after_open, lemma_cell_count_none_open, lemma_cell_index_inverse,
    lemma_count_after_corridor_opened, lemma_count_after_room_opened, lemma_count_none_open,
    lemma_full_count_all_open, lemma_partial_count_wall_room, lemma_room_index_inverse,
};
use vstd::prelude::*;

verus! {

/// The row-major walk of rooms from `(1, 1)` to `(tx, 1)`.
pub open spec fn row_walk(tx: int) -> Seq<(int, int)>
    decreases tx,
{
    if tx <= 1 {
        seq![(1int, 1int)]
    } else {
        row_walk(tx - 2).push((tx, 1int))
    }
}

/// The walk of rooms from `(1, 1)` along the first row to `(tx, 1)` and
/// then down the column to `(tx, ty)`.
pub open spec fn room_walk(tx: int, ty: int) -> Seq<(int, int)>
    decreases ty,
{
    if ty <= 1 {
        row_walk(tx)
    } else {
        room_walk(tx, ty - 2).push((tx, ty))
    }
}

/// The row walk visits only rooms, two cells apart each step.
proof fn lemma_row_walk_props(m: Maze, tx: int)
    requires
        m.odd_dims(),
        1 <= tx <= m.width - 2,
        tx % 2 == 1,
    ensures
        ({
            let p = row_walk(tx);
            &&& p.len() >= 1
            &&& p[0] == (1int, 1int)
            &&& p.last() == (tx, 1int)
            &&& forall|i: int| 0 <= i < p.len() ==> m.is_room((#[trigger] p[i]).0, p[i].1)
            &&& forall|i: int| 0 < i < p.len() ==> m.rooms_linked(p[i - 1], #[trigger] p[i])
        }),
    decreases tx,
{
    let p = row_walk(tx);
    if tx <= 1 {
        assert(p == seq![(1int, 1int)]);
        assert(m.is_room(1, 1));
    } else {
        lemma_row_walk_props(m, tx - 2);
        let q = row_walk(tx - 2);
        assert(p == q.push((tx, 1int)));
        assert forall|i: int| 0 <= i < p.len() implies m.is_room(
            (#[trigger] p[i]).0,
            p[i].1,
        ) by {
            if i < q.len() {
                assert(p[i] == q[i]);
                assert(m.is_room(q[i].0, q[i].1));
            } else {
                assert(p[i] == (tx, 1int));
            }
        }
        assert forall|i: int| 0 < i < p.len() implies m.rooms_linked(p[i - 1], #[trigger] p[i]) by {
            if i < q.len() {
                assert(p[i] == q[i] && p[i - 1] == q[i - 1]);
                assert(m.rooms_linked(q[i - 1], q[i]));
            } else {
                assert(p[i] == (tx, 1int));
                assert(p[i - 1] == q.last());
                assert(q.last() == (tx - 2, 1int));
                assert(m.is_room(tx - 2, 1));
                assert(m.is_room(tx, 1));
            }
        }
    }
}

/// The full walk visits only rooms, two cells apart each step, and ends
/// at the requested room.
proof fn lemma_room_walk_props(m: Maze, tx: int, ty: int)
    requires
        m.odd_dims(),
        1 <= tx <= m.width - 2,
        1 <= ty <= m.height - 2,
        tx % 2 == 1,
        ty % 2 == 1,
    ensures
        ({
            let p = room_walk(tx, ty);
            &&& p.len() >= 1
            &&& p[0] == (1int, 1int)
            &&& p.last() == (tx, ty)
            &&& forall|i: int| 0 <= i < p.len() ==> m.is_room((#[trigger] p[i]).0, p[i].1)
            &&& forall|i: int| 0 < i < p.len() ==> m.rooms_linked(p[i - 1], #[trigger] p[i])
        }),
    decreases ty,
{
    let p = room_walk(tx, ty);
    if ty <= 1 {
        lemma_row_walk_props(m, tx);
    } else {
        lemma_room_walk_props(m, tx, ty - 2);
        let q = room_walk(tx, ty - 2);
        assert(p == q.push((tx, ty)));
        assert forall|i: int| 0 <= i < p.len() implies m.is_room(
            (#[trigger] p[i]).0,
            p[i].1,
        ) by {
            if i < q.len() {
                assert(p[i] == q[i]);
                assert(m.is_room(q[i].0, q[i].1));
            } else {
                assert(p[i] == (tx, ty));
            }
        }
        assert forall|i: int| 0 < i < p.len() implies m.rooms_linked(p[i - 1], #[trigger] p[i]) by {
            if i < q.len() {
                assert(p[i] == q[i] && p[i - 1] == q[i - 1]);
                assert(m.rooms_linked(q[i - 1], q[i]));
            } else {
                assert(p[i] == (tx, ty));
                assert(p[i - 1] == q.last());
                assert(q.last() == (tx, ty - 2));
                assert(m.is_room(tx, ty - 2));
                assert(m.is_room(tx, ty));
            }
        }
    }
}

/// Along a walk of linked rooms from an open room to a walled one there
/// is a walled room whose predecessor is open, i.e. a carvable room.
proof fn lemma_walk_first_wall(m: Maze, p: Seq<(int, int)>)
    requires
        p.len() >= 1,
        m.is_open(p[0].0, p[0].1),
        !m.is_open(p.last().0, p.last().1),
        forall|i: int| 0 <= i < p.len() ==> m.is_room((#[trigger] p[i]).0, p[i].1),
        forall|i: int| 0 < i < p.len() ==> m.rooms_linked(p[i - 1], #[trigger] p[i]),
    ensures
        exists|a: (int, int)| #[trigger] m.carvable(a),
    decreases p.len(),
{
    assert(p.len() >= 2);
    if !m.is_open(p[1].0, p[1].1) {
        assert(m.rooms_linked(p[0], p[1]));
        assert(m.rooms_linked(p[1], p[0]));
        assert(m.carvable(p[1]));
    } else {
        let q = p.subrange(1, p.len() as int);
        assert(q.len() == p.len() - 1);
        assert(q[0] == p[1]);
        assert(q.last() == p.last());
        assert(m.is_room(p.last().0, p.last().1));
        assert forall|i: int| 0 <= i < q.len() implies m.is_room(
            (#[trigger] q[i]).0,
            q[i].1,
        ) by {
            assert(q[i] == p[i + 1]);
            assert(m.is_room(p[i + 1].0, p[i + 1].1));
        }
        assert forall|i: int| 0 < i < q.len() implies m.rooms_linked(q[i - 1], #[trigger] q[i]) by {
            assert(q[i] == p[i + 1]);
            assert(q[i - 1] == p[i]);
            assert(m.rooms_linked(p[i], p[i + 1]));
        }
        lemma_walk_first_wall(m, q);
    }
}

/// While some room is still walled and the start room is open, some room
/// is carvable.
proof fn lemma_carvable_exists(m: Maze)
    requires
        m.odd_dims(),
        m.is_open(1, 1),
        exists|x: int, y: int| #[trigger] m.is_room(x, y) && !m.is_open(x, y),
    ensures
        exists|a: (int, int)| #[trigger] m.carvable(a),
{
    let (tx, ty): (int, int) = choose|x: int, y: int|
        #[trigger] m.is_room(x, y) && !m.is_open(x, y);
    lemma_room_walk_props(m, tx, ty);
    let p = room_walk(tx, ty);
    lemma_walk_first_wall(m, p);
}

/// A two-cell jump from a room, clamped to the room band, lands on a room:
/// either a neighbouring room two cells away or, at the border, the room
/// itself.
proof fn lemma_probe_step(m: Maze, px: int, py: int, tx: int, ty: int, dir: Direction)
    requires
        m.odd_dims(),
        m.is_room(px, py),
        (tx, ty) == spec_move(px, py, 1, 1, m.width - 2, m.height - 2, dir, 2),
    ensures
        m.is_room(tx, ty),
        (tx, ty) == (px, py) || m.rooms_linked((tx, ty), (px, py)),
{
    let w = m.width as int;
    let h = m.height as int;
    match dir {
        Direction::Left => {
            if px - 2 >= 1 {
                assert(tx == px - 2);
            } else {
                assert(px == 1 && tx == 1);
            }
        },
        Direction::Right => {
            if px + 2 <= w - 2 {
                assert(tx == px + 2);
            } else {
                assert(px == w - 2 && tx == w - 2);
            }
        },
        Direction::Up => {
            if py - 2 >= 1 {
                assert(ty == py - 2);
            } else {
                assert(py == 1 && ty == 1);
            }
        },
        Direction::Down => {
            if py + 2 <= h - 2 {
                assert(ty == py + 2);
            } else {
                assert(py == h - 2 && ty == h - 2);
            }
        },
    }
}

/// Facts about the wall cell between a walled room `(rx, ry)` and a
/// linked open room `(nx, ny)`, with `(mx, my)` computed as the carver
/// does: it is an interior non-room cell with exactly one even
/// coordinate, adjacent to both rooms, its flanks on the even axis are
/// exactly the two rooms — and it is still walled, since were it open its
/// flanks would both be open while `(rx, ry)` is not.
proof fn lemma_midpoint_facts(m0: Maze, rx: int, ry: int, nx: int, ny: int, mx: int, my: int)
    requires
        m0.wf(),
        m0.odd_dims(),
        m0.is_room(rx, ry),
        !m0.is_open(rx, ry),
        m0.rooms_linked((rx, ry), (nx, ny)),
        m0.corridors_flanked(),
        mx == if nx > rx {
            rx + 1
        } else if nx < rx {
            rx - 1
        } else {
            rx
        },
        my == if ny > ry {
            ry + 1
        } else if ny < ry {
            ry - 1
        } else {
            ry
        },
    ensures
        m0.in_bounds(mx, my),
        !m0.is_room(mx, my),
        !m0.is_open(mx, my),
        (mx, my) != (rx, ry),
        1 <= mx <= m0.width - 2,
        1 <= my <= m0.height - 2,
        (mx % 2 == 0 && my % 2 == 1) || (mx % 2 == 1 && my % 2 == 0),
        mx % 2 == 0 ==> my == ry && my == ny && ((mx - 1 == rx && mx + 1 == nx) || (mx - 1 == nx
            && mx + 1 == rx)),
        my % 2 == 0 ==> mx == rx && mx == nx && ((my - 1 == ry && my + 1 == ny) || (my - 1 == ny
            && my + 1 == ry)),
        adjacent((nx, ny), (mx, my)),
        adjacent((mx, my), (rx, ry)),
{
    if m0.is_open(mx, my) {
        if mx % 2 == 0 {
            assert(m0.is_open(mx - 1, my) && m0.is_open(mx + 1, my));
        } else {
            assert(m0.is_open(mx, my - 1) && m0.is_open(mx, my + 1));
        }
        assert(false);
    }
}

/// What opening one room and the wall cell between it and an open
/// neighbour room does to the maze: `m1` is `m0` with the room `(rx, ry)`
/// opened, `m2` is `m1` with the between cell `(mx, my)` opened. The
/// generator's invariants carry over, and the open-room count grows by
/// exactly one.
proof fn lemma_carve_effect(
    m0: Maze,
    m1: Maze,
    m2: Maze,
    rx: int,
    ry: int,
    nx: int,
    ny: int,
    mx: int,
    my: int,
)
    requires
        m0.wf(),
        m0.odd_dims(),
        m0.is_room(rx, ry),
        !m0.is_open(rx, ry),
        m0.rooms_linked((rx, ry), (nx, ny)),
        m0.is_open(nx, ny),
        m0.connected(),
        forall|x: int, y: int| #[trigger] m0.is_open(x, y) ==> (x % 2 == 1 || y % 2 == 1),
        m0.open_cells_interior(),
        m0.corridors_flanked(),
        m0.in_bounds(mx, my),
        !m0.is_room(mx, my),
        !m0.is_open(mx, my),
        (mx, my) != (rx, ry),
        1 <= mx <= m0.width - 2,
        1 <= my <= m0.height - 2,
        (mx % 2 == 0 && my % 2 == 1) || (mx % 2 == 1 && my % 2 == 0),
        mx % 2 == 0 ==> my == ry && my == ny && ((mx - 1 == rx && mx + 1 == nx) || (mx - 1 == nx
            && mx + 1 == rx)),
        my % 2 == 0 ==> mx == rx && mx == nx && ((my - 1 == ry && my + 1 == ny) || (my - 1 == ny
            && my + 1 == ry)),
        adjacent((nx, ny), (mx, my)),
        adjacent((mx, my), (rx, ry)),
        m1.wf(),
        m1.width == m0.width,
        m1.height == m0.height,
        m1.cell_at(rx, ry) == CellType::Open,
        forall|x: int, y: int|
            m0.in_bounds(x, y) && (x, y) != (rx, ry) ==> m1.cell_at(x, y) == #[trigger] m0.cell_at(
                x,
                y,
            ),
        m2.wf(),
        m2.width == m1.width,
        m2.height == m1.height,
        m2.cell_at(mx, my) == CellType::Open,
        forall|x: int, y: int|
            m1.in_bounds(x, y) && (x, y) != (mx, my) ==> m2.cell_at(x, y) == #[trigger] m1.cell_at(
                x,
                y,
            ),
    ensures
        m2.is_open(rx, ry),
        forall|x: int, y: int| #[trigger] m0.is_open(x, y) ==> m2.is_open(x, y),
        m2.connected(),
        forall|x: int, y: int| #[trigger] m2.is_open(x, y) ==> (x % 2 == 1 || y % 2 == 1),
        m2.open_cells_interior(),
        m2.corridors_flanked(),
        m2.open_room_count() == m0.open_room_count() + 1,
        m2.open_cell_count() == m0.open_cell_count() + 2,
        m2.total_rooms() == m0.total_rooms(),
{
    // Which cells are open now: the old ones plus the room and the wall
    // cell between.
    assert forall|x: int, y: int| #[trigger] m0.is_open(x, y) implies m2.is_open(x, y) by {
        if (x, y) != (rx, ry) && (x, y) != (mx, my) {
            assert(m1.cell_at(x, y) == m0.cell_at(x, y));
            assert(m2.cell_at(x, y) == m1.cell_at(x, y));
        }
    }
    assert forall|x: int, y: int| #[trigger] m2.is_open(x, y) implies m0.is_open(x, y) || (x, y)
        == (rx, ry) || (x, y) == (mx, my) by {
        if (x, y) != (rx, ry) && (x, y) != (mx, my) {
            assert(m1.cell_at(x, y) == m0.cell_at(x, y));
            assert(m2.cell_at(x, y) == m1.cell_at(x, y));
        }
    }
    // Connectivity: the neighbour room was reachable; the wall cell and
    // the new room hang off it.
    assert(m2.is_open(nx, ny));
    assert(m2.is_open(mx, my));
    assert(m2.is_open(rx, ry));
    lemma_reachable_monotone(m0, m2, nx, ny);
    lemma_reachable_extend(m2, nx, ny, mx, my);
    lemma_reachable_extend(m2, mx, my, rx, ry);
    assert forall|x: int, y: int| #[trigger] m2.is_open(x, y) implies m2.reachable(x, y) by {
        if m0.is_open(x, y) {
            assert(m0.reachable(x, y));
            lemma_reachable_monotone(m0, m2, x, y);
        } else if (x, y) == (rx, ry) {
            assert(m2.reachable(rx, ry));
        } else {
            assert((x, y) == (mx, my));
            assert(m2.reachable(mx, my));
        }
    }
    // Parity of the newly opened cells.
    assert forall|x: int, y: int| #[trigger] m2.is_open(x, y) implies (x % 2 == 1 || y % 2
        == 1) by {
        if m0.is_open(x, y) {
        } else if (x, y) == (rx, ry) {
        } else {
            assert((x, y) == (mx, my));
        }
    }
    // The newly opened cells lie strictly inside the border.
    assert forall|x: int, y: int| #[trigger] m2.is_open(x, y) implies 1 <= x <= m2.width - 2 && 1
        <= y <= m2.height - 2 by {
        if m0.is_open(x, y) {
        } else if (x, y) == (rx, ry) {
        } else {
            assert((x, y) == (mx, my));
        }
    }
    // A corridor cell still joins the two rooms it sits between: old ones
    // keep their open flanks, and the new one's flanks are exactly the
    // carved room and its open neighbour.
    assert forall|x: int, y: int| #[trigger] m2.is_open(x, y) && x % 2 == 0 implies m2.is_open(
        x - 1,
        y,
    ) && m2.is_open(x + 1, y) by {
        if m0.is_open(x, y) {
            assert(m0.is_open(x - 1, y) && m0.is_open(x + 1, y));
        } else if (x, y) == (mx, my) {
            assert(m2.is_open(rx, ry) && m2.is_open(nx, ny));
        } else {
            assert((x, y) == (rx, ry));
        }
    }
    assert forall|x: int, y: int| #[trigger] m2.is_open(x, y) && y % 2 == 0 implies m2.is_open(
        x,
        y - 1,
    ) && m2.is_open(x, y + 1) by {
        if m0.is_open(x, y) {
            assert(m0.is_open(x, y - 1) && m0.is_open(x, y + 1));
        } else if (x, y) == (mx, my) {
            assert(m2.is_open(rx, ry) && m2.is_open(nx, ny));
        } else {
            assert((x, y) == (rx, ry));
        }
    }
    // The open-room count grew by exactly one.
    lemma_room_index_inverse(m0, rx, ry);
    lemma_count_after_room_opened(m0, m1, rx, ry, m0.total_rooms());
    lemma_count_after_corridor_opened(m1, m2, mx, my, m1.total_rooms());
    assert(m1.total_rooms() == m0.total_rooms());
    assert(m2.open_room_count() == m0.open_room_count() + 1);
    // The open-cell count grew by exactly two: the room and the wall
    // cell between, both walled before.
    lemma_cell_index_inverse(m0, rx, ry);
    lemma_cell_count_after_open(m0, m1, rx, ry, m0.width * m0.height);
    assert(!m1.is_open(mx, my)) by {
        assert(m1.cell_at(mx, my) == m0.cell_at(mx, my));
    }
    lemma_cell_index_inverse(m1, mx, my);
    lemma_cell_count_after_open(m1, m2, mx, my, m1.width * m1.height);
    assert(m2.open_cell_count() == m0.open_cell_count() + 2);
}

impl Maze {
    /// Opens the walled room `(rx, ry)` together with the wall cell
    /// between it and the already-open room `(nx, ny)`, preserving the
    /// generator's invariants — connectivity, the open-cell parity and
    /// interior rules, corridors flanked by their rooms — while the
    /// open-room count grows by exactly one and the open-cell count by
    /// exactly two.
    #[verifier::rlimit(100)]
    #[verifier::spinoff_prover]
    fn carve(&mut self, rx: usize, ry: usize, nx: usize, ny: usize)
        requires
            old(self).wf(),
            old(self).odd_dims(),
            old(self).is_room(rx as int, ry as int),
            !old(self).is_open(rx as int, ry as int),
            old(self).rooms_linked((rx as int, ry as int), (nx as int, ny as int)),
            old(self).is_open(nx as int, ny as int),
            old(self).connected(),
            forall|x: int, y: int| #[trigger] old(self).is_open(x, y) ==> (x % 2 == 1 || y % 2
                == 1),
            old(self).open_cells_interior(),
            old(self).corridors_flanked(),
        ensures
            final(self).wf(),
            final(self).odd_dims(),
            final(self).width == old(self).width,
            final(self).height == old(self).height,
            final(self).is_open(rx as int, ry as int),
            forall|x: int, y: int| #[trigger] old(self).is_open(x, y) ==> final(self).is_open(x, y),
            final(self).connected(),
            forall|x: int, y: int| #[trigger] final(self).is_open(x, y) ==> (x % 2 == 1 || y % 2
                == 1),
            final(self).open_cells_interior(),
            final(self).corridors_flanked(),
            final(self).open_room_count() == old(self).open_room_count() + 1,
            final(self).open_cell_count() == old(self).open_cell_count() + 2,
            final(self).total_rooms() == old(self).total_rooms(),
    {
        let ghost m0 = *self;
        // The wall cell between the two rooms.
        let mx: usize = if nx > rx {
            rx + 1
        } else if nx < rx {
            rx - 1
        } else {
            rx
        };
        let my: usize = if ny > ry {
            ry + 1
        } else if ny < ry {
            ry - 1
        } else {
            ry
        };
        proof {
            lemma_midpoint_facts(
                m0,
                rx as int,
                ry as int,
                nx as int,
                ny as int,
                mx as int,
                my as int,
            );
        }
        self.set(rx, ry, CellType::Open);
        let ghost m1 = *self;
        self.set(mx, my, CellType::Open);
        proof {
            lemma_carve_effect(
                m0,
                m1,
                *self,
                rx as int,
                ry as int,
                nx as int,
                ny as int,
                mx as int,
                my as int,
            );
        }
    }

    /// Scans the room lattice row-major for a walled room with an open
    /// room on the other side of one wall cell. The generator falls back
    /// to this scan when the random walk has not hit such a room.
    fn find_carvable(&self) -> (res: (usize, usize, usize, usize))
        requires
            self.wf(),
            self.odd_dims(),
            exists|a: (int, int)| #[trigger] self.carvable(a),
        ensures
            ({
                let (rx, ry, nx, ny) = res;
                &&& self.is_room(rx as int, ry as int)
                &&& !self.is_open(rx as int, ry as int)
                &&& self.rooms_linked((rx as int, ry as int), (nx as int, ny as int))
                &&& self.is_open(nx as int, ny as int)
            }),
    {
        let mut y: usize = 1;
        while y <= self.height - 2
            invariant
                self.wf(),
                self.odd_dims(),
                exists|a: (int, int)| #[trigger] self.carvable(a),
                y % 2 == 1,
                1 <= y,
                forall|a: (int, int)| #[trigger] self.carvable(a) ==> a.1 >= y,
            decreases self.height - y,
        {
            let mut x: usize = 1;
            while x <= self.width - 2
                invariant
                    self.wf(),
                    self.odd_dims(),
                    exists|a: (int, int)| #[trigger] self.carvable(a),
                    x % 2 == 1,
                    1 <= x,
                    y % 2 == 1,
                    1 <= y <= self.height - 2,
                    forall|a: (int, int)| #[trigger] self.carvable(a) ==> a.1 > y || (a.1 == y
                        && a.0 >= x),
                decreases self.width - x,
            {
                if self.get(x, y) == CellType::Wall {
                    if x >= 3 && self.get(x - 2, y) == CellType::Open {
                        return (x, y, x - 2, y);
                    }
                    if x + 2 <= self.width - 2 && self.get(x + 2, y) == CellType::Open {
                        return (x, y, x + 2, y);
                    }
                    if y >= 3 && self.get(x, y - 2) == CellType::Open {
                        return (x, y, x, y - 2);
                    }
                    if y + 2 <= self.height - 2 && self.get(x, y + 2) == CellType::Open {
                        return (x, y, x, y + 2);
                    }
                    proof {
                        assert forall|b: (int, int)| self.rooms_linked(
                            (x as int, y as int),
                            b,
                        ) implies !self.is_open(b.0, b.1) by {
                            assert(self.in_bounds(b.0, b.1));
                        }
                        assert(!self.carvable((x as int, y as int)));
                    }
                } else {
                    proof {
                        assert(self.is_open(x as int, y as int));
                        assert(!self.carvable((x as int, y as int)));
                    }
                }
                proof {
                    assert forall|a: (int, int)| #[trigger] self.carvable(a) implies a.1 > y || (
                    a.1 == y && a.0 >= x + 2) by {
                        assert(a.0 % 2 == 1);
                        assert(a != (x as int, y as int));
                    }
                }
                x += 2;
            }
            proof {
                assert forall|a: (int, int)| #[trigger] self.carvable(a) implies a.1 >= y + 2 by {
                    assert(a.0 <= self.width - 2);
                    assert(a.1 % 2 == 1);
                }
            }
            y += 2;
        }
        proof {
            let a = choose|a: (int, int)| #[trigger] self.carvable(a);
            assert(a.1 <= self.height - 2);
            assert(false);
        }
        vstd::pervasive::unreached()
    }

    /// Generates a maze with `open_cells_x * open_cells_y` rooms.
    ///
    /// The board is `(2 * open_cells_x + 1) x (2 * open_cells_y + 1)`:
    /// always odd on both axes, so rooms sit at odd coordinates with a
    /// wall lattice between them and a solid border around them. Carving
    /// starts from the open room at `(1, 1)` and opens one walled room at
    /// a time, together with the wall cell between it and the open room
    /// it was reached from, so every open cell stays reachable from
    /// `(1, 1)`. Rooms are chosen by a random two-cell walk; when a burst
    /// of random jumps finds no walled room, a row-major hunt supplies
    /// the next one.
    pub fn new(open_cells_x: usize, open_cells_y: usize) -> (m: Maze)
        requires
            1 <= open_cells_x,
            1 <= open_cells_y,
            (2 * open_cells_x + 1) * (2 * open_cells_y + 1) <= usize::MAX,
        ensures
            m.wf(),
            m.odd_dims(),
            m.width == 2 * open_cells_x + 1,
            m.height == 2 * open_cells_y + 1,
            m.is_open(1, 1),
            m.connected(),
            forall|x: int, y: int| #[trigger] m.is_room(x, y) ==> m.is_open(x, y),
            forall|x: int, y: int| #[trigger] m.is_open(x, y) ==> (x % 2 == 1 || y % 2 == 1),
            m.open_cells_interior(),
            m.corridors_flanked(),
            m.open_room_count() == m.total_rooms(),
            m.total_rooms() == open_cells_x * open_cells_y,
            m.open_cell_count() == 2 * (open_cells_x * open_cells_y) - 1,
    {
        proof {
            assert((2 * open_cells_x + 1) * (2 * open_cells_y + 1) >= 2 * open_cells_x + 1 && (2
                * open_cells_x + 1) * (2 * open_cells_y + 1) >= 2 * open_cells_y + 1 && (2
                * open_cells_x + 1) * (2 * open_cells_y + 1) >= open_cells_x * open_cells_y
                && open_cells_x * open_cells_y >= 1) by (nonlinear_arith)
                requires
                    1 <= open_cells_x,
                    1 <= open_cells_y,
            ;
        }
        let width = 2 * open_cells_x + 1;
        let height = 2 * open_cells_y + 1;
        let total_cells = width * height;
        let cells = vec![CellType::Wall; total_cells];
        let mut maze = Maze { width, height, cells };
        proof {
            assert(maze.wf());
            assert(maze.odd_dims());
            assert(maze.rooms_x() == open_cells_x && maze.rooms_y() == open_cells_y);
            assert forall|x: int, y: int| maze.in_bounds(x, y) implies maze.cell_at(x, y)
                == CellType::Wall by {
                crate::maze::lemma_grid_index(x, y, width as int, height as int);
            }
            assert forall|x: int, y: int| #[trigger] maze.is_room(x, y) implies !maze.is_open(
                x,
                y,
            ) by {}
            lemma_count_none_open(maze, maze.total_rooms());
            lemma_cell_count_none_open(maze, maze.width * maze.height);
        }
        let ghost m0 = maze;
        maze.set(1, 1, CellType::Open);
        proof {
            assert(maze.is_open(1, 1));
            assert forall|x: int, y: int| #[trigger] maze.is_open(x, y) implies (x, y) == (
            1int,
            1int,
            ) by {
                if (x, y) != (1int, 1int) {
                    assert(maze.cell_at(x, y) == m0.cell_at(x, y));
                }
            }
            lemma_reachable_start(maze);
            lemma_room_index_inverse(m0, 1, 1);
            lemma_count_after_room_opened(m0, maze, 1, 1, m0.total_rooms());
            assert(maze.open_room_count() == 1);
            lemma_cell_index_inverse(m0, 1, 1);
            lemma_cell_count_after_open(m0, maze, 1, 1, m0.width * m0.height);
            assert(maze.open_cell_count() == 1);
        }
        let mut px: usize = 1;
        let mut py: usize = 1;
        let mut remaining = open_cells_x * open_cells_y - 1;
        while remaining > 0
            invariant
                maze.wf(),
                maze.odd_dims(),
                maze.width == 2 * open_cells_x + 1,
                maze.height == 2 * open_cells_y + 1,
                maze.total_rooms() == open_cells_x * open_cells_y,
                maze.is_room(px as int, py as int),
                maze.is_open(px as int, py as int),
                maze.is_open(1, 1),
                maze.connected(),
                forall|x: int, y: int| #[trigger] maze.is_open(x, y) ==> (x % 2 == 1 || y % 2
                    == 1),
                maze.open_cells_interior(),
                maze.corridors_flanked(),
                remaining < maze.total_rooms(),
                maze.open_room_count() == maze.total_rooms() - remaining,
                maze.open_cell_count() == 2 * (maze.total_rooms() - remaining) - 1,
            decreases remaining,
        {
            // A burst of random two-cell jumps: walk across open rooms,
            // stop on the first walled room hit.
            let mut found = false;
            let mut fx: usize = 1;
            let mut fy: usize = 1;
            let mut tries: usize = 16;
            while tries > 0 && !found
                invariant
                    maze.wf(),
                    maze.odd_dims(),
                    maze.is_room(px as int, py as int),
                    maze.is_open(px as int, py as int),
                    found ==> (maze.is_room(fx as int, fy as int) && !maze.is_open(
                        fx as int,
                        fy as int,
                    ) && maze.rooms_linked((fx as int, fy as int), (px as int, py as int))),
                decreases tries,
            {
                let dir = random_direction();
                let mut tx = px;
                let mut ty = py;
                move_in_dir(&mut tx, &mut ty, 1, 1, maze.width - 2, maze.height - 2, &dir, 2);
                proof {
                    lemma_probe_step(maze, px as int, py as int, tx as int, ty as int, dir);
                }
                if maze.get(tx, ty) == CellType::Wall {
                    found = true;
                    fx = tx;
                    fy = ty;
                } else {
                    px = tx;
                    py = ty;
                }
                tries -= 1;
            }
            if found {
                maze.carve(fx, fy, px, py);
                px = fx;
                py = fy;
            } else {
                proof {
                    lemma_partial_count_wall_room(maze);
                    lemma_carvable_exists(maze);
                }
                let (ax, ay, bx, by) = maze.find_carvable();
                maze.carve(ax, ay, bx, by);
                px = ax;
                py = ay;
            }
            remaining -= 1;
        }
        proof {
            lemma_full_count_all_open(maze);
        }
        maze
    }
}

} // verus!
