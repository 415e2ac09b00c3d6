//! The client's view of the session: the maze it was handed on join and
//! a dictionary of players keyed by player id, kept in step by applying
//! the server's player events.

use crate::dict::{
    assoc_view, lemma_assoc_contains, lemma_assoc_len, lemma_assoc_push, lemma_assoc_remove,
    lemma_assoc_update, lemma_assoc_value, unique_keys,
};
use crate::direction::Direction;
use crate::maze::Maze;
use crate::player::Player;
use vstd::prelude::*;

verus! {

/// The players a client knows of, keyed by player id. Its view is the
/// map from id (as a character sequence) to player state.
pub struct PlayerDict {
    entries: Vec<(String, Player)>,
}

/// What one player event from the server does to the dictionary: a live
/// snapshot is inserted (or overwrites the stale one); a dead snapshot
/// removes the player.
pub open spec fn spec_apply_event(m: Map<Seq<char>, Player>, p: Player) -> Map<Seq<char>, Player> {
    if p.alive {
        m.insert(p.id@, p)
    } else {
        m.remove(p.id@)
    }
}

/// The dictionary a roster builds: every player keyed by its id, later
/// entries winning.
pub open spec fn spec_roster_dict(s: Seq<Player>) -> Map<Seq<char>, Player>
    decreases s.len(),
{
    if s.len() == 0 {
        Map::empty()
    } else {
        spec_roster_dict(s.drop_last()).insert(s.last().id@, s.last())
    }
}

impl PlayerDict {
    /// The entries with their keys abstracted to character sequences.
    pub closed spec fn keyed(self) -> Seq<(Seq<char>, Player)> {
        self.entries@.map_values(|e: (String, Player)| (e.0@, e.1))
    }

    pub closed spec fn wf(self) -> bool {
        unique_keys(self.keyed())
    }

    pub fn new() -> (d: PlayerDict)
        ensures
            d.wf(),
            d@ == Map::<Seq<char>, Player>::empty(),
    {
        let d = PlayerDict { entries: Vec::new() };
        proof {
            assert(d.keyed() =~= Seq::<(Seq<char>, Player)>::empty());
        }
        d
    }

    /// The index of the entry keyed by `id`, if any.
    fn find(&self, id: &String) -> (idx: Option<usize>)
        ensures
            match idx {
                Some(i) => i < self.keyed().len() && self.keyed()[i as int].0 == id@,
                None => forall|j: int|
                    0 <= j < self.keyed().len() ==> (#[trigger] self.keyed()[j]).0 != id@,
            },
    {
        let mut i: usize = 0;
        while i < self.entries.len()
            invariant
                i <= self.entries@.len(),
                forall|j: int| 0 <= j < i ==> (#[trigger] self.keyed()[j]).0 != id@,
            decreases self.entries@.len() - i,
        {
            if self.entries[i].0 == *id {
                proof {
                    assert(self.keyed()[i as int].0 == self.entries@[i as int].0@);
                }
                return Some(i);
            }
            proof {
                assert(self.keyed()[i as int].0 == self.entries@[i as int].0@);
            }
            i += 1;
        }
        None
    }

    /// How many players the client knows of.
    pub fn len(&self) -> (n: usize)
        requires
            self.wf(),
        ensures
            n == self@.len(),
    {
        proof {
            lemma_assoc_len(self.keyed());
        }
        self.entries.len()
    }

    /// The player with the given id, if known.
    pub fn get(&self, id: &String) -> (r: Option<Player>)
        requires
            self.wf(),
        ensures
            r == if self@.contains_key(id@) {
                Some(self@[id@])
            } else {
                None::<Player>
            },
    {
        proof {
            lemma_assoc_contains(self.keyed(), id@);
        }
        match self.find(id) {
            None => None,
            Some(i) => {
                proof {
                    lemma_assoc_value(self.keyed(), i as int);
                }
                Some(self.entries[i].1.clone())
            },
        }
    }

    /// Inserts or overwrites the player under its id.
    pub fn insert(&mut self, p: Player)
        requires
            old(self).wf(),
        ensures
            final(self).wf(),
            final(self)@ == old(self)@.insert(p.id@, p),
    {
        let key = p.id.clone();
        match self.find(&key) {
            Some(i) => {
                let ghost before = self.keyed();
                proof {
                    lemma_assoc_update(before, i as int, key@, p);
                }
                self.entries[i] = (key, p);
                proof {
                    assert(self.keyed() =~= before.update(i as int, (key@, p)));
                }
            },
            None => {
                let ghost before = self.keyed();
                proof {
                    lemma_assoc_push(before, key@, p);
                }
                self.entries.push((key, p));
                proof {
                    assert(self.keyed() =~= before.push((key@, p)));
                }
            },
        }
    }

    /// Forgets the player with the given id, if known.
    pub fn remove(&mut self, id: &String)
        requires
            old(self).wf(),
        ensures
            final(self).wf(),
            final(self)@ == old(self)@.remove(id@),
    {
        proof {
            lemma_assoc_contains(self.keyed(), id@);
        }
        match self.find(id) {
            None => {
                proof {
                    assert(!old(self)@.contains_key(id@));
                    assert(old(self)@.remove(id@) =~= old(self)@);
                }
            },
            Some(i) => {
                let ghost before = self.keyed();
                proof {
                    lemma_assoc_remove(before, i as int);
                }
                self.entries.remove(i);
                proof {
                    assert(self.keyed() =~= before.remove(i as int));
                }
            },
        }
    }

    /// Applies one player event from the server's broadcast stream.
    pub fn apply_event(&mut self, p: Player)
        requires
            old(self).wf(),
        ensures
            final(self).wf(),
            final(self)@ == spec_apply_event(old(self)@, p),
    {
        if p.alive {
            self.insert(p);
        } else {
            self.remove(&p.id);
        }
    }

    /// A copy of every known player.
    pub fn players(&self) -> (r: Vec<Player>)
        requires
            self.wf(),
        ensures
            r@.len() == self@.len(),
            forall|i: int|
                0 <= i < r@.len() ==> exists|k: Seq<char>|
                    self@.contains_key(k) && self@[k] == #[trigger] r@[i],
            forall|k: Seq<char>| #[trigger]
                self@.contains_key(k) ==> exists|i: int| 0 <= i < r@.len() && r@[i] == self@[k],
    {
        let mut out: Vec<Player> = Vec::new();
        let mut i: usize = 0;
        while i < self.entries.len()
            invariant
                i <= self.entries@.len(),
                out@.len() == i,
                forall|j: int| 0 <= j < i ==> out@[j] == (#[trigger] self.keyed()[j]).1,
            decreases self.entries@.len() - i,
        {
            let p = self.entries[i].1.clone();
            proof {
                assert(self.keyed()[i as int].1 == self.entries@[i as int].1);
            }
            out.push(p);
            i += 1;
        }
        proof {
            lemma_assoc_len(self.keyed());
            assert forall|i: int| 0 <= i < out@.len() implies exists|k: Seq<char>|
                self@.contains_key(k) && self@[k] == #[trigger] out@[i] by {
                lemma_assoc_value(self.keyed(), i);
                assert(self@.contains_key(self.keyed()[i].0) && self@[self.keyed()[i].0]
                    == out@[i]);
            }
            assert forall|k: Seq<char>| #[trigger] self@.contains_key(k) implies exists|i: int|
                0 <= i < out@.len() && out@[i] == self@[k] by {
                lemma_assoc_contains(self.keyed(), k);
                let i = choose|i: int|
                    0 <= i < self.keyed().len() && (#[trigger] self.keyed()[i]).0 == k;
                lemma_assoc_value(self.keyed(), i);
                assert(out@[i] == self@[k]);
            }
        }
        out
    }
}

impl View for PlayerDict {
    type V = Map<Seq<char>, Player>;

    closed spec fn view(&self) -> Map<Seq<char>, Player> {
        assoc_view(self.keyed())
    }
}

impl Clone for PlayerDict {
    fn clone(&self) -> (r: Self)
        ensures
            r@ == self@,
            r.wf() == self.wf(),
    {
        let mut entries: Vec<(String, Player)> = Vec::new();
        let mut i: usize = 0;
        while i < self.entries.len()
            invariant
                i <= self.entries@.len(),
                entries@.len() == i,
                forall|j: int| 0 <= j < i ==> #[trigger] entries@[j] == self.entries@[j],
            decreases self.entries@.len() - i,
        {
            let key = self.entries[i].0.clone();
            let val = self.entries[i].1.clone();
            entries.push((key, val));
            i += 1;
        }
        let r = PlayerDict { entries };
        proof {
            assert(r.entries@ =~= self.entries@);
            assert(r.keyed() =~= self.keyed());
        }
        r
    }
}

/// Builds the client's dictionary from the roster of a join response.
pub fn roster_to_dict(players: &Vec<Player>) -> (d: PlayerDict)
    ensures
        d.wf(),
        d@ == spec_roster_dict(players@),
{
    let mut d = PlayerDict::new();
    let mut i: usize = 0;
    while i < players.len()
        invariant
            i <= players@.len(),
            d.wf(),
            d@ == spec_roster_dict(players@.take(i as int)),
        decreases players@.len() - i,
    {
        let p = players[i].clone();
        d.insert(p);
        proof {
            let t = players@.take(i as int + 1);
            assert(t.drop_last() =~= players@.take(i as int));
            assert(t.last() == players@[i as int]);
        }
        i += 1;
    }
    proof {
        assert(players@.take(players@.len() as int) =~= players@);
    }
    d
}

/// The client's synchronized snapshot of the session: its own player id,
/// the maze, and the last player dictionary it copied out of the stream
/// handler.
pub struct GameStateSynced {
    pub player_id: String,
    pub maze: Maze,
    pub player_dict: PlayerDict,
}

impl GameStateSynced {
    pub fn new(player_id: String, maze: Maze, player_dict: PlayerDict) -> (s: GameStateSynced)
        ensures
            s.player_id == player_id,
            s.maze == maze,
            s.player_dict == player_dict,
    {
        GameStateSynced { player_id, maze, player_dict }
    }

    /// Replaces the snapshot's players with the shared dictionary's
    /// current contents.
    pub fn update_players(&mut self, players: &PlayerDict)
        requires
            players.wf(),
        ensures
            final(self).player_dict@ == players@,
            final(self).player_dict.wf(),
            final(self).player_id == old(self).player_id,
            final(self).maze == old(self).maze,
    {
        self.player_dict = players.clone();
    }
}

/// The direction a movement key stands for: WASD, as the client binds
/// them. Any other key moves nothing.
pub open spec fn spec_direction_for_key(c: char) -> Option<Direction> {
    if c == 'a' {
        Some(Direction::Left)
    } else if c == 'd' {
        Some(Direction::Right)
    } else if c == 'w' {
        Some(Direction::Up)
    } else if c == 's' {
        Some(Direction::Down)
    } else {
        None
    }
}

/// Maps one pressed key to the direction to send, if any.
pub fn direction_for_key(c: char) -> (r: Option<Direction>)
    ensures
        r == spec_direction_for_key(c),
{
    if c == 'a' {
        Some(Direction::Left)
    } else if c == 'd' {
        Some(Direction::Right)
    } else if c == 'w' {
        Some(Direction::Up)
    } else if c == 's' {
        Some(Direction::Down)
    } else {
        None
    }
}

/// The widget-facing handle to the synchronized state. Drawing itself is
/// a terminal concern and lives outside the library.
pub struct GameView {
    state: Option<GameStateSynced>,
}

impl GameView {
    pub closed spec fn spec_state(self) -> Option<GameStateSynced> {
        self.state
    }

    /// Builder: a view of the given state.
    pub fn state(self, state: Option<GameStateSynced>) -> (r: GameView)
        ensures
            r.spec_state() == state,
    {
        GameView { state }
    }

    /// Whether the view holds a state to draw.
    pub fn has_state(&self) -> (b: bool)
        ensures
            b == (self.spec_state() is Some),
    {
        self.state.is_some()
    }
}

impl Default for GameView {
    fn default() -> (r: GameView)
        ensures
            r.spec_state() is None,
    {
        GameView { state: None }
    }
}

} // verus!
