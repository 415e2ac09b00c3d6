//! The player registry: the single authoritative copy of every player's
//! state, keyed by connection identity. All four operations are total
//! functions of the registry's map view, so callers reason about a plain
//! `Map<u64, Player>`.

use crate::dict::{
    assoc_view, lemma_assoc_contains, lemma_assoc_len, lemma_assoc_push, lemma_assoc_remove,
    lemma_assoc_update, lemma_assoc_value, unique_keys,
};
use crate::direction::Direction;
use crate::maze::Maze;
use crate::movement::Position;
use crate::player::{spec_moved, Player};
use vstd::prelude::*;

verus! {

/// The one internal-invariant violation the registry can report: a
/// connection id was registered twice. Connection identity is unique per
/// live connection, so this signals a logic bug, not a user error.
#[derive(Clone, Copy, PartialEq, Eq, Structural, Debug)]
pub enum RegistryError {
    AlreadyRegistered,
}

/// The registry. Its view is the map from connection id to player state.
pub struct Registry {
    entries: Vec<(u64, Player)>,
}

impl View for Registry {
    type V = Map<u64, Player>;

    closed spec fn view(&self) -> Map<u64, Player> {
        assoc_view(self.entries@)
    }
}

/// How one `mutate` call transforms the registry map: the named player,
/// if registered, takes one movement step; everything else is untouched.
pub open spec fn mutate_step(
    m: Map<u64, Player>,
    maze: Maze,
    conn_id: u64,
    dir: Direction,
) -> Map<u64, Player> {
    if m.contains_key(conn_id) {
        m.insert(conn_id, spec_moved(m[conn_id], maze, dir))
    } else {
        m
    }
}

/// `r` is a point-in-time copy of the players of `m`: one snapshot per
/// registered id, and nothing else.
pub open spec fn roster_matches(m: Map<u64, Player>, r: Seq<Player>) -> bool {
    &&& r.len() == m.len()
    &&& forall|i: int|
        0 <= i < r.len() ==> exists|k: u64| m.contains_key(k) && m[k] == #[trigger] r[i]
    &&& forall|k: u64| #[trigger]
        m.contains_key(k) ==> exists|i: int| 0 <= i < r.len() && r[i] == m[k]
}

impl Registry {
    pub closed spec fn wf(self) -> bool {
        unique_keys(self.entries@)
    }

    pub fn new() -> (r: Registry)
        ensures
            r.wf(),
            r@ == Map::<u64, Player>::empty(),
    {
        Registry { entries: Vec::new() }
    }

    /// The index of the entry holding `conn_id`, if any.
    fn find(&self, conn_id: u64) -> (idx: Option<usize>)
        ensures
            match idx {
                Some(i) => i < self.entries@.len() && self.entries@[i as int].0 == conn_id,
                None => forall|j: int|
                    0 <= j < self.entries@.len() ==> (#[trigger] self.entries@[j]).0 != conn_id,
            },
    {
        let mut i: usize = 0;
        while i < self.entries.len()
            invariant
                i <= self.entries@.len(),
                forall|j: int| 0 <= j < i ==> (#[trigger] self.entries@[j]).0 != conn_id,
            decreases self.entries@.len() - i,
        {
            if self.entries[i].0 == conn_id {
                return Some(i);
            }
            i += 1;
        }
        None
    }

    /// A snapshot of the named player, if registered.
    pub fn get(&self, conn_id: u64) -> (r: Option<Player>)
        requires
            self.wf(),
        ensures
            r == if self@.contains_key(conn_id) {
                Some(self@[conn_id])
            } else {
                None::<Player>
            },
    {
        proof {
            lemma_assoc_contains(self.entries@, conn_id);
        }
        match self.find(conn_id) {
            None => None,
            Some(i) => {
                proof {
                    lemma_assoc_value(self.entries@, i as int);
                }
                Some(self.entries[i].1.clone())
            },
        }
    }

    /// Creates a player at the maze's start cell under `conn_id` and
    /// returns a snapshot of it. Fails, changing nothing, exactly when
    /// the id is already registered.
    pub fn register(&mut self, conn_id: u64, name: String) -> (r: Result<Player, RegistryError>)
        requires
            old(self).wf(),
        ensures
            final(self).wf(),
            match r {
                Ok(p) => {
                    &&& !old(self)@.contains_key(conn_id)
                    &&& p.name == name
                    &&& p.pos == (Position { x: 1, y: 1 })
                    &&& p.alive == true
                    &&& final(self)@ == old(self)@.insert(conn_id, p)
                },
                Err(e) => {
                    &&& e == RegistryError::AlreadyRegistered
                    &&& old(self)@.contains_key(conn_id)
                    &&& final(self)@ == old(self)@
                },
            },
    {
        proof {
            lemma_assoc_contains(self.entries@, conn_id);
        }
        match self.find(conn_id) {
            Some(_) => Err(RegistryError::AlreadyRegistered),
            None => {
                let p = Player::new(name);
                let stored = p.clone();
                proof {
                    lemma_assoc_push(self.entries@, conn_id, stored);
                }
                self.entries.push((conn_id, stored));
                Ok(p)
            },
        }
    }

    /// A point-in-time copy of every registered player: one snapshot per
    /// registered id, and nothing else.
    pub fn get_snapshot_all(&self) -> (r: Vec<Player>)
        requires
            self.wf(),
        ensures
            roster_matches(self@, r@),
    {
        let mut out: Vec<Player> = Vec::new();
        let mut i: usize = 0;
        while i < self.entries.len()
            invariant
                i <= self.entries@.len(),
                out@.len() == i,
                forall|j: int| 0 <= j < i ==> out@[j] == (#[trigger] self.entries@[j]).1,
            decreases self.entries@.len() - i,
        {
            let p = self.entries[i].1.clone();
            out.push(p);
            i += 1;
        }
        proof {
            lemma_assoc_len(self.entries@);
            assert forall|i: int| 0 <= i < out@.len() implies exists|k: u64|
                self@.contains_key(k) && self@[k] == #[trigger] out@[i] by {
                lemma_assoc_value(self.entries@, i);
                assert(self@.contains_key(self.entries@[i].0) && self@[self.entries@[i].0]
                    == out@[i]);
            }
            assert forall|k: u64| #[trigger] self@.contains_key(k) implies exists|i: int|
                0 <= i < out@.len() && out@[i] == self@[k] by {
                lemma_assoc_contains(self.entries@, k);
                let i = choose|i: int|
                    0 <= i < self.entries@.len() && (#[trigger] self.entries@[i]).0 == k;
                lemma_assoc_value(self.entries@, i);
                assert(out@[i] == self@[k]);
            }
        }
        out
    }

    /// Applies one movement step to the named player under the movement
    /// rule and returns the post-move snapshot for broadcasting, or
    /// `None` when the id is not registered (already disconnected). No
    /// other entry changes.
    pub fn mutate(&mut self, conn_id: u64, maze: &Maze, dir: Direction) -> (r: Option<Player>)
        requires
            old(self).wf(),
            maze.wf(),
            maze.width <= u32::MAX,
            maze.height <= u32::MAX,
            old(self)@.contains_key(conn_id) ==> (old(self)@[conn_id].pos.x < maze.width && old(
                self,
            )@[conn_id].pos.y < maze.height),
        ensures
            final(self).wf(),
            final(self)@ == mutate_step(old(self)@, *maze, conn_id, dir),
            match r {
                Some(p) => old(self)@.contains_key(conn_id) && p == spec_moved(
                    old(self)@[conn_id],
                    *maze,
                    dir,
                ),
                None => !old(self)@.contains_key(conn_id),
            },
    {
        proof {
            lemma_assoc_contains(self.entries@, conn_id);
        }
        match self.find(conn_id) {
            None => None,
            Some(i) => {
                proof {
                    lemma_assoc_value(self.entries@, i as int);
                }
                let mut p = self.entries[i].1.clone();
                p.move_if_valid(maze, dir);
                let stored = p.clone();
                proof {
                    lemma_assoc_update(self.entries@, i as int, conn_id, stored);
                }
                self.entries[i] = (conn_id, stored);
                Some(p)
            },
        }
    }

    /// Marks the named player dead, removes it, and returns the final
    /// (alive = false) snapshot for the death broadcast. Idempotent: once
    /// the id is gone, further calls return `None` and change nothing.
    pub fn mark_dead_and_remove(&mut self, conn_id: u64) -> (r: Option<Player>)
        requires
            old(self).wf(),
        ensures
            final(self).wf(),
            match r {
                Some(p) => {
                    &&& old(self)@.contains_key(conn_id)
                    &&& p == (Player { alive: false, ..old(self)@[conn_id] })
                    &&& final(self)@ == old(self)@.remove(conn_id)
                },
                None => !old(self)@.contains_key(conn_id) && final(self)@ == old(self)@,
            },
    {
        proof {
            lemma_assoc_contains(self.entries@, conn_id);
        }
        match self.find(conn_id) {
            None => None,
            Some(i) => {
                proof {
                    lemma_assoc_value(self.entries@, i as int);
                    lemma_assoc_remove(self.entries@, i as int);
                }
                let mut p = self.entries[i].1.clone();
                p.alive = false;
                self.entries.remove(i);
                Some(p)
            },
        }
    }
}

/// Law: moves by two different connections commute. Mutating two
/// different ids in either order yields the same registry map, so
/// interleaved `mutate` calls on different connections can never corrupt
/// each other's state: the end state equals the sequential application in
/// either order.
pub proof fn lemma_mutate_commutes(
    m: Map<u64, Player>,
    maze: Maze,
    id1: u64,
    dir1: Direction,
    id2: u64,
    dir2: Direction,
)
    requires
        id1 != id2,
    ensures
        mutate_step(mutate_step(m, maze, id1, dir1), maze, id2, dir2) == mutate_step(
            mutate_step(m, maze, id2, dir2),
            maze,
            id1,
            dir1,
        ),
{
    let a = mutate_step(mutate_step(m, maze, id1, dir1), maze, id2, dir2);
    let b = mutate_step(mutate_step(m, maze, id2, dir2), maze, id1, dir1);
    assert(a =~= b);
}

/// Law: a mutate of one connection leaves every other entry exactly as it
/// was.
pub proof fn lemma_mutate_preserves_others(
    m: Map<u64, Player>,
    maze: Maze,
    conn_id: u64,
    dir: Direction,
    other: u64,
)
    requires
        other != conn_id,
    ensures
        mutate_step(m, maze, conn_id, dir).contains_key(other) == m.contains_key(other),
        m.contains_key(other) ==> mutate_step(m, maze, conn_id, dir)[other] == m[other],
{
}

/// Law: disconnecting is idempotent. A disconnect removes the id from the
/// registry map, so the id is no longer registered afterwards and an
/// immediate second `mark_dead_and_remove` of the same id returns `None`.
pub proof fn lemma_disconnect_idempotent(m: Map<u64, Player>, conn_id: u64)
    ensures
        !m.remove(conn_id).contains_key(conn_id),
{
}

} // verus!
