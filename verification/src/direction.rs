//! The four movement directions and their encodings.

use rand::Rng;
use vstd::prelude::*;

verus! {

/// A step direction on the maze grid.
#[derive(Clone, Copy, PartialEq, Eq, Debug, Structural)]
pub enum Direction {
    Left,
    Right,
    Up,
    Down,
}

impl Direction {
    /// The opposite of a direction, as a spec-level function.
    pub open spec fn spec_flip(self) -> Direction {
        match self {
            Direction::Left => Direction::Right,
            Direction::Right => Direction::Left,
            Direction::Up => Direction::Down,
            Direction::Down => Direction::Up,
        }
    }

    /// Returns the opposite direction. Maze generation uses this to find
    /// the wall cell between a newly carved room and the room it was
    /// reached from.
    pub fn flip(&self) -> (r: Direction)
        ensures
            r == self.spec_flip(),
    {
        match self {
            Direction::Left => Direction::Right,
            Direction::Right => Direction::Left,
            Direction::Up => Direction::Down,
            Direction::Down => Direction::Up,
        }
    }
}

/// Flipping a direction twice gives the direction back.
pub proof fn lemma_flip_involution(d: Direction)
    ensures
        d.spec_flip().spec_flip() == d,
{
}

/// The direction a uniformly drawn index in `0..4` stands for.
pub open spec fn spec_direction_from_index(i: u64) -> Direction {
    if i == 0 {
        Direction::Left
    } else if i == 1 {
        Direction::Right
    } else if i == 2 {
        Direction::Up
    } else {
        Direction::Down
    }
}

/// Maps a random index in `0..4` to a direction.
pub fn direction_from_index(i: u64) -> (r: Direction)
    requires
        i < 4,
    ensures
        r == spec_direction_from_index(i),
{
    if i == 0 {
        Direction::Left
    } else if i == 1 {
        Direction::Right
    } else if i == 2 {
        Direction::Up
    } else {
        Direction::Down
    }
}

/// Relies on rand's `thread_rng` and `Rng::gen_range`: on the range
/// `0..4` the draw returns a value in that range. Nothing is promised
/// about which one.
#[verifier::external_body]
fn random_index_below_four() -> (r: u64)
    ensures
        r < 4,
{
    rand::thread_rng().gen_range(0..4u64)
}

/// Draws a uniformly random direction. No two calls are related: the
/// result may be any of the four directions.
pub fn random_direction() -> Direction {
    let i = random_index_below_four();
    direction_from_index(i)
}

} // verus!
