//! The session service: the two-operation protocol (join, move-stream)
//! over the maze, the player registry and the broadcast hub. A connection
//! joins, streams directions that move its player under the authoritative
//! movement rule, and is removed — with a final dead snapshot broadcast —
//! when its stream ends.

use crate::direction::Direction;
use crate::hub::{Hub, RecvOutcome, Subscription};
use crate::maze::Maze;
use crate::movement::Position;
use crate::player::{lemma_moved_stays_open, spec_moved, Player};
use crate::proto::{proto_encodes, ProtoMaze};
use crate::registry::{mutate_step, roster_matches, Registry};
use vstd::prelude::*;

verus! {

/// How many player events the broadcast hub retains for slow subscribers.
pub const HUB_CAPACITY: usize = 50;

/// The answer to a join: the new player's id, the maze in wire form, and
/// the full roster at the moment of joining (the new player included).
pub struct JoinResponse {
    pub player_id: String,
    pub maze: ProtoMaze,
    pub players: Vec<Player>,
}

/// Session-level failures. These signal internal invariant violations:
/// they abort the one operation loudly instead of being swallowed.
#[derive(Clone, Copy, PartialEq, Eq, Structural, Debug)]
pub enum ServiceError {
    /// The connection id is already registered. Connection identity is
    /// unique per live connection, so a second join under the same id is
    /// a logic bug, not a recoverable user error.
    AlreadyConnected,
}

/// The session service root: one maze, generated at startup and read-only
/// thereafter; the authoritative player registry; and the broadcast hub
/// every connection's outbound stream subscribes to.
pub struct GameService {
    maze: Maze,
    registry: Registry,
    hub: Hub,
}

impl GameService {
    /// The session's maze.
    pub closed spec fn maze_spec(self) -> Maze {
        self.maze
    }

    /// The registry's map from connection id to player state.
    pub closed spec fn registry_view(self) -> Map<u64, Player> {
        self.registry@
    }

    /// Every player event ever broadcast, oldest first.
    pub closed spec fn log(self) -> Seq<Player> {
        self.hub.log()
    }

    /// How many of the newest events the hub retains.
    pub closed spec fn hub_capacity(self) -> int {
        self.hub.capacity_spec()
    }

    /// How many events at the head of the log can no longer be received.
    pub open spec fn dropped(self) -> int {
        if self.log().len() <= self.hub_capacity() {
            0
        } else {
            self.log().len() - self.hub_capacity()
        }
    }

    /// The service invariant. Besides the parts' own well-formedness it
    /// carries the player-position invariant: every registered player
    /// stands on an open cell of the maze.
    pub closed spec fn wf(self) -> bool {
        &&& self.maze.wf()
        &&& self.maze.width <= u32::MAX
        &&& self.maze.height <= u32::MAX
        &&& self.maze.is_open(1, 1)
        &&& self.registry.wf()
        &&& self.hub.wf()
        &&& forall|k: u64| #[trigger]
            self.registry@.contains_key(k) ==> self.maze.is_open(
                self.registry@[k].pos.x as int,
                self.registry@[k].pos.y as int,
            )
    }

    /// A service over an already-generated maze. The maze must hold the
    /// generator's start cell open, since players join there.
    pub fn with_maze(maze: Maze) -> (s: GameService)
        requires
            maze.wf(),
            maze.width <= u32::MAX,
            maze.height <= u32::MAX,
            maze.is_open(1, 1),
        ensures
            s.wf(),
            s.maze_spec() == maze,
            s.registry_view() == Map::<u64, Player>::empty(),
            s.log() == Seq::<Player>::empty(),
            s.hub_capacity() == HUB_CAPACITY,
    {
        GameService { maze, registry: Registry::new(), hub: Hub::new(HUB_CAPACITY) }
    }

    /// A service over a freshly generated maze with the given number of
    /// rooms on each axis.
    pub fn new(open_cells_x: usize, open_cells_y: usize) -> (s: GameService)
        requires
            1 <= open_cells_x,
            1 <= open_cells_y,
            (2 * open_cells_x + 1) * (2 * open_cells_y + 1) <= usize::MAX,
            2 * open_cells_x + 1 <= u32::MAX,
            2 * open_cells_y + 1 <= u32::MAX,
        ensures
            s.wf(),
            s.registry_view() == Map::<u64, Player>::empty(),
            s.log() == Seq::<Player>::empty(),
            s.hub_capacity() == HUB_CAPACITY,
            s.maze_spec().width == 2 * open_cells_x + 1,
            s.maze_spec().height == 2 * open_cells_y + 1,
            s.maze_spec().connected(),
            forall|x: int, y: int| #[trigger]
                s.maze_spec().is_room(x, y) ==> s.maze_spec().is_open(x, y),
    {
        let maze = Maze::new(open_cells_x, open_cells_y);
        GameService::with_maze(maze)
    }

    /// Read access to the session's maze.
    pub fn maze(&self) -> (m: &Maze)
        ensures
            *m == self.maze_spec(),
    {
        &self.maze
    }

    /// Join: registers a player under the connection id, broadcasts its
    /// appearance, and answers with the maze snapshot and the full
    /// roster, the new player included. Fails, changing nothing, exactly
    /// when the id is already registered.
    pub fn connect_player(&mut self, conn_id: u64, name: String) -> (r: Result<
        JoinResponse,
        ServiceError,
    >)
        requires
            old(self).wf(),
            old(self).log().len() < usize::MAX,
        ensures
            final(self).wf(),
            final(self).maze_spec() == old(self).maze_spec(),
            final(self).hub_capacity() == old(self).hub_capacity(),
            match r {
                Ok(resp) => {
                    &&& !old(self).registry_view().contains_key(conn_id)
                    &&& final(self).registry_view().contains_key(conn_id)
                    &&& ({
                        let p = final(self).registry_view()[conn_id];
                        &&& p.name == name
                        &&& p.pos == (Position { x: 1, y: 1 })
                        &&& p.alive == true
                        &&& resp.player_id == p.id
                        &&& final(self).registry_view() == old(self).registry_view().insert(
                            conn_id,
                            p,
                        )
                        &&& final(self).log() == old(self).log().push(p)
                    })
                    &&& proto_encodes(resp.maze, old(self).maze_spec())
                    &&& roster_matches(final(self).registry_view(), resp.players@)
                },
                Err(e) => {
                    &&& e == ServiceError::AlreadyConnected
                    &&& old(self).registry_view().contains_key(conn_id)
                    &&& final(self).registry_view() == old(self).registry_view()
                    &&& final(self).log() == old(self).log()
                },
            },
    {
        match self.registry.register(conn_id, name) {
            Err(_) => Err(ServiceError::AlreadyConnected),
            Ok(p) => {
                self.hub.publish(p.clone());
                let players = self.registry.get_snapshot_all();
                let maze = self.maze.to_proto();
                proof {
                    assert forall|k: u64| #[trigger]
                        self.registry@.contains_key(k) implies self.maze.is_open(
                        self.registry@[k].pos.x as int,
                        self.registry@[k].pos.y as int,
                    ) by {
                        if k != conn_id {
                            assert(old(self).registry_view().contains_key(k));
                        }
                    }
                }
                Ok(JoinResponse { player_id: p.id.clone(), maze, players })
            },
        }
    }

    /// One step of the move-stream: applies the direction to the named
    /// player under the movement rule; a move that actually changed the
    /// position is broadcast, a blocked attempt is silently absorbed and
    /// publishes nothing. A direction for an unregistered (already
    /// disconnected) id is a no-op, not an error.
    pub fn handle_direction(&mut self, conn_id: u64, dir: Direction) -> (r: Option<Player>)
        requires
            old(self).wf(),
            old(self).log().len() < usize::MAX,
        ensures
            final(self).wf(),
            final(self).maze_spec() == old(self).maze_spec(),
            final(self).hub_capacity() == old(self).hub_capacity(),
            final(self).registry_view() == mutate_step(
                old(self).registry_view(),
                old(self).maze_spec(),
                conn_id,
                dir,
            ),
            match r {
                Some(p) => {
                    &&& old(self).registry_view().contains_key(conn_id)
                    &&& p == spec_moved(
                        old(self).registry_view()[conn_id],
                        old(self).maze_spec(),
                        dir,
                    )
                    &&& (p.pos != old(self).registry_view()[conn_id].pos ==> final(self).log()
                        == old(self).log().push(p))
                    &&& (p.pos == old(self).registry_view()[conn_id].pos ==> final(self).log()
                        == old(self).log())
                },
                None => {
                    &&& !old(self).registry_view().contains_key(conn_id)
                    &&& final(self).log() == old(self).log()
                },
            },
    {
        let before = self.registry.get(conn_id);
        let moved = self.registry.mutate(conn_id, &self.maze, dir);
        proof {
            assert forall|k: u64| #[trigger] self.registry@.contains_key(k) implies self.maze.is_open(
                self.registry@[k].pos.x as int,
                self.registry@[k].pos.y as int,
            ) by {
                assert(old(self).registry_view().contains_key(k));
                if k == conn_id {
                    lemma_moved_stays_open(
                        old(self).registry_view()[conn_id],
                        self.maze,
                        dir,
                    );
                }
            }
        }
        match (before, moved) {
            (Some(b), Some(p)) => {
                if p.pos != b.pos {
                    self.hub.publish(p.clone());
                }
                Some(p)
            },
            (_, _) => None,
        }
    }

    /// Stream termination: marks the player dead, removes it, and
    /// broadcasts the final dead snapshot. Idempotent: once the id is
    /// gone, further calls return `None`, publish nothing and change
    /// nothing — "already cleaned up" is not an error.
    pub fn disconnect(&mut self, conn_id: u64) -> (r: Option<Player>)
        requires
            old(self).wf(),
            old(self).log().len() < usize::MAX,
        ensures
            final(self).wf(),
            final(self).maze_spec() == old(self).maze_spec(),
            final(self).hub_capacity() == old(self).hub_capacity(),
            match r {
                Some(p) => {
                    &&& old(self).registry_view().contains_key(conn_id)
                    &&& p == (Player { alive: false, ..old(self).registry_view()[conn_id] })
                    &&& final(self).registry_view() == old(self).registry_view().remove(conn_id)
                    &&& final(self).log() == old(self).log().push(p)
                },
                None => {
                    &&& !old(self).registry_view().contains_key(conn_id)
                    &&& final(self).registry_view() == old(self).registry_view()
                    &&& final(self).log() == old(self).log()
                },
            },
    {
        match self.registry.mark_dead_and_remove(conn_id) {
            None => None,
            Some(p) => {
                self.hub.publish(p.clone());
                proof {
                    assert forall|k: u64| #[trigger]
                        self.registry@.contains_key(k) implies self.maze.is_open(
                        self.registry@[k].pos.x as int,
                        self.registry@[k].pos.y as int,
                    ) by {
                        assert(old(self).registry_view().contains_key(k));
                    }
                }
                Some(p)
            },
        }
    }

    /// A point-in-time copy of the roster.
    pub fn roster(&self) -> (r: Vec<Player>)
        requires
            self.wf(),
        ensures
            roster_matches(self.registry_view(), r@),
    {
        self.registry.get_snapshot_all()
    }

    /// How many player events have ever been broadcast.
    pub fn events_published(&self) -> (n: usize)
        requires
            self.wf(),
        ensures
            n == self.log().len(),
    {
        self.hub.published()
    }

    /// A new subscription to the broadcast hub. It sees only events
    /// published after this call.
    pub fn subscribe(&self) -> (s: Subscription)
        requires
            self.wf(),
        ensures
            s.next_to_read() == self.log().len(),
    {
        self.hub.subscribe()
    }

    /// One receive attempt on a subscription: `Empty` when caught up, a
    /// skip-ahead `Lagged` notice when the subscriber fell out of the
    /// retained window, otherwise exactly the log event at its cursor, in
    /// publish order.
    pub fn recv_event(&self, s: &mut Subscription) -> (r: RecvOutcome)
        requires
            self.wf(),
            0 <= old(s).next_to_read() <= self.log().len(),
        ensures
            0 <= final(s).next_to_read() <= self.log().len(),
            final(s).next_to_read() >= old(s).next_to_read(),
            old(s).next_to_read() < self.dropped() ==> {
                &&& r == RecvOutcome::Lagged((self.dropped() - old(s).next_to_read()) as usize)
                &&& final(s).next_to_read() == self.dropped()
            },
            old(s).next_to_read() >= self.dropped() && old(s).next_to_read() < self.log().len()
                ==> {
                &&& r == RecvOutcome::Msg(self.log()[old(s).next_to_read()])
                &&& final(s).next_to_read() == old(s).next_to_read() + 1
            },
            old(s).next_to_read() == self.log().len() ==> {
                &&& r == RecvOutcome::Empty
                &&& final(s).next_to_read() == old(s).next_to_read()
            },
    {
        self.hub.recv(s)
    }
}

} // verus!
