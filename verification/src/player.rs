//! Players: identity, name, position and liveness, plus the single
//! authoritative movement rule shared by server and client prediction.

use crate::cell::CellType;
use crate::direction::Direction;
use crate::maze::Maze;
use crate::movement::{spec_move, Position};
use vstd::prelude::*;

verus! {

/// One player's state. The position always names an open cell of the
/// session's maze: every move is validated against the maze before it is
/// committed.
pub struct Player {
    /// An opaque unique identifier, assigned on join.
    pub id: String,
    /// The display name the client chose.
    pub name: String,
    pub pos: Position,
    pub alive: bool,
}

impl Clone for Player {
    fn clone(&self) -> (r: Self)
        ensures
            r == *self,
    {
        Player { id: self.id.clone(), name: self.name.clone(), pos: self.pos, alive: self.alive }
    }
}

/// Relies on uuid's `Uuid::new_v4` and its `Display` form: a fresh random
/// identifier, rendered as the 36-character hyphenated form. Nothing is
/// promised beyond the length: the value is random.
#[verifier::external_body]
fn fresh_player_id() -> (r: String)
    ensures
        r@.len() == 36,
{
    uuid::Uuid::new_v4().to_string()
}

/// Where a player standing at `pos` would land moving one cell in `dir`,
/// clamped to the board of `m`: moving into the outer border saturates at
/// the edge coordinate.
pub open spec fn candidate_pos(pos: Position, m: Maze, dir: Direction) -> (int, int) {
    spec_move(pos.x as int, pos.y as int, 0, 0, m.width - 1, m.height - 1, dir, 1)
}

/// The player after one movement attempt: the candidate cell is taken iff
/// it is open; otherwise the player is unchanged.
pub open spec fn spec_moved(p: Player, m: Maze, dir: Direction) -> Player {
    let cand = candidate_pos(p.pos, m, dir);
    if m.is_open(cand.0, cand.1) {
        Player { pos: Position { x: cand.0 as u32, y: cand.1 as u32 }, ..p }
    } else {
        p
    }
}

/// A movement step never leaves the open cells: the player either stays
/// put or steps onto the open candidate cell.
pub proof fn lemma_moved_stays_open(p: Player, m: Maze, dir: Direction)
    requires
        m.wf(),
        m.width <= u32::MAX,
        m.height <= u32::MAX,
        m.is_open(p.pos.x as int, p.pos.y as int),
    ensures
        m.is_open(spec_moved(p, m, dir).pos.x as int, spec_moved(p, m, dir).pos.y as int),
{
    let cand = candidate_pos(p.pos, m, dir);
    if m.is_open(cand.0, cand.1) {
        assert(0 <= cand.0 < m.width && 0 <= cand.1 < m.height);
        assert((cand.0 as u32) as int == cand.0 && (cand.1 as u32) as int == cand.1);
    }
}

impl Player {
    /// A newly joined player: fresh random id, the given name, standing
    /// on the maze's known-open start cell `(1, 1)`, alive.
    pub fn new(name: String) -> (p: Player)
        ensures
            p.name == name,
            p.pos == (Position { x: 1, y: 1 }),
            p.alive == true,
            p.id@.len() == 36,
    {
        Player { id: fresh_player_id(), name, pos: Position { x: 1, y: 1 }, alive: true }
    }

    /// The authoritative movement rule: compute the candidate cell one
    /// step in `dir`, clamped to the board, and commit it iff that cell
    /// is open. An attempt into a wall changes nothing and reports
    /// failure.
    pub fn move_if_valid(&mut self, maze: &Maze, dir: Direction) -> (moved: bool)
        requires
            maze.wf(),
            maze.width <= u32::MAX,
            maze.height <= u32::MAX,
            old(self).pos.x < maze.width,
            old(self).pos.y < maze.height,
        ensures
            *final(self) == spec_moved(*old(self), *maze, dir),
            moved == ({
                let cand = candidate_pos(old(self).pos, *maze, dir);
                maze.is_open(cand.0, cand.1)
            }),
            moved ==> maze.is_open(final(self).pos.x as int, final(self).pos.y as int),
            !moved ==> *final(self) == *old(self),
    {
        let mut pos = self.pos;
        pos.move_in_dir(0, 0, maze.width - 1, maze.height - 1, dir, 1);
        if maze.get(pos.x as usize, pos.y as usize) == CellType::Open {
            self.pos = pos;
            true
        } else {
            false
        }
    }
}

} // verus!
