//! Clamped grid movement, shared by maze generation, the server's
//! authoritative movement rule, and client-side prediction.

use crate::direction::Direction;
use vstd::prelude::*;

verus! {

/// A coordinate moved down by `dist`, saturating at zero and clamped to
/// at least `lo`.
pub open spec fn clamped_dec(v: int, dist: int, lo: int) -> int {
    if v - dist >= lo {
        v - dist
    } else {
        lo
    }
}

/// A coordinate moved up by `dist`, clamped to at most `hi`.
pub open spec fn clamped_inc(v: int, dist: int, hi: int) -> int {
    if v + dist <= hi {
        v + dist
    } else {
        hi
    }
}

/// Where a position lands after moving `dist` cells in `dir`, clamped to
/// the box `[min_x, max_x] x [min_y, max_y]`.
pub open spec fn spec_move(
    x: int,
    y: int,
    min_x: int,
    min_y: int,
    max_x: int,
    max_y: int,
    dir: Direction,
    dist: int,
) -> (int, int) {
    match dir {
        Direction::Left => (clamped_dec(x, dist, min_x), y),
        Direction::Right => (clamped_inc(x, dist, max_x), y),
        Direction::Up => (x, clamped_dec(y, dist, min_y)),
        Direction::Down => (x, clamped_inc(y, dist, max_y)),
    }
}

/// Moves `(x, y)` by `dist` cells in `dir`, clamping to the given box.
/// Moving past an edge of the box saturates at the edge; it is never an
/// error. Only a move towards an upper bound can overflow, so only those
/// directions carry a bound; moving down or left saturates at zero and
/// needs none.
pub fn move_in_dir(
    x: &mut usize,
    y: &mut usize,
    min_x: usize,
    min_y: usize,
    max_x: usize,
    max_y: usize,
    dir: &Direction,
    dist: usize,
)
    requires
        *dir == Direction::Right ==> *old(x) + dist <= usize::MAX,
        *dir == Direction::Down ==> *old(y) + dist <= usize::MAX,
    ensures
        (*final(x) as int, *final(y) as int) == spec_move(
            *old(x) as int,
            *old(y) as int,
            min_x as int,
            min_y as int,
            max_x as int,
            max_y as int,
            *dir,
            dist as int,
        ),
{
    match *dir {
        Direction::Left => {
            let moved = if *x >= dist {
                *x - dist
            } else {
                0
            };
            *x = if moved >= min_x {
                moved
            } else {
                min_x
            };
        },
        Direction::Right => {
            let moved = *x + dist;
            *x = if moved <= max_x {
                moved
            } else {
                max_x
            };
        },
        Direction::Up => {
            let moved = if *y >= dist {
                *y - dist
            } else {
                0
            };
            *y = if moved >= min_y {
                moved
            } else {
                min_y
            };
        },
        Direction::Down => {
            let moved = *y + dist;
            *y = if moved <= max_y {
                moved
            } else {
                max_y
            };
        },
    }
}

/// A grid position.
#[derive(Clone, Copy, PartialEq, Eq, Debug, Structural)]
pub struct Position {
    pub x: u32,
    pub y: u32,
}

impl Position {
    pub fn new(x: u32, y: u32) -> (p: Position)
        ensures
            p == (Position { x, y }),
    {
        Position { x, y }
    }

    /// Moves the position by `dist` cells in `dir`, clamped to the given
    /// box, with the same saturating edge rule as [`move_in_dir`].
    pub fn move_in_dir(
        &mut self,
        min_x: usize,
        min_y: usize,
        max_x: usize,
        max_y: usize,
        dir: Direction,
        dist: usize,
    )
        requires
            dir == Direction::Right ==> old(self).x + dist <= usize::MAX,
            dir == Direction::Down ==> old(self).y + dist <= usize::MAX,
            min_x <= u32::MAX,
            min_y <= u32::MAX,
            max_x <= u32::MAX,
            max_y <= u32::MAX,
        ensures
            (final(self).x as int, final(self).y as int) == spec_move(
                old(self).x as int,
                old(self).y as int,
                min_x as int,
                min_y as int,
                max_x as int,
                max_y as int,
                dir,
                dist as int,
            ),
    {
        let mut x = self.x as usize;
        let mut y = self.y as usize;
        move_in_dir(&mut x, &mut y, min_x, min_y, max_x, max_y, &dir, dist);
        self.x = x as u32;
        self.y = y as u32;
    }
}

} // verus!
