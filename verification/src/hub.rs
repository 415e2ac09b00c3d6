//! The broadcast hub: a bounded publish/subscribe fan-out of player
//! snapshots. Publishing never blocks and never fails; it appends to a
//! logical log of which only the newest `capacity` events are retained. A
//! subscriber that has fallen behind the retained window skips ahead to
//! the oldest retained event and is told how many it missed; the events a
//! subscriber does receive come in publish order, each exactly the log
//! entry at its cursor.

use crate::player::Player;
use vstd::prelude::*;

verus! {

/// The hub. Its abstract state is the full publish log (a ghost value;
/// only the tail is stored) plus the retention capacity.
pub struct Hub {
    capacity: usize,
    next_seq: usize,
    buffer: Vec<Player>,
    log: Ghost<Seq<Player>>,
}

/// One subscriber's position in the hub's log: the index of the next
/// event it has yet to receive.
pub struct Subscription {
    cursor: usize,
}

/// What one receive attempt yielded.
pub enum RecvOutcome {
    /// No event the subscriber has not already seen.
    Empty,
    /// The subscriber lagged: this many events were dropped before it
    /// caught up; it resumes at the oldest retained event.
    Lagged(usize),
    /// The next event, in publish order.
    Msg(Player),
}

impl Subscription {
    /// The index into the hub's log of the next event to receive.
    pub closed spec fn next_to_read(self) -> int {
        self.cursor as int
    }
}

impl Hub {
    /// Everything ever published, oldest first.
    pub closed spec fn log(self) -> Seq<Player> {
        self.log@
    }

    /// How many of the newest events are retained for slow subscribers.
    pub closed spec fn capacity_spec(self) -> int {
        self.capacity as int
    }

    /// How many events at the head of the log have been dropped and can
    /// no longer be received.
    pub open spec fn dropped(self) -> int {
        if self.log().len() <= self.capacity_spec() {
            0
        } else {
            self.log().len() - self.capacity_spec()
        }
    }

    pub closed spec fn wf(self) -> bool {
        &&& self.capacity >= 1
        &&& self.next_seq == self.log@.len()
        &&& self.buffer@.len() == self.log@.len() - self.dropped()
        &&& self.buffer@ == self.log@.skip(self.dropped())
    }

    /// A subscription whose cursor has not run past the log.
    pub open spec fn valid_subscription(self, s: Subscription) -> bool {
        0 <= s.next_to_read() <= self.log().len()
    }

    pub fn new(capacity: usize) -> (h: Hub)
        requires
            capacity >= 1,
        ensures
            h.wf(),
            h.log() == Seq::<Player>::empty(),
            h.capacity_spec() == capacity,
    {
        let h = Hub { capacity, next_seq: 0, buffer: Vec::new(), log: Ghost(Seq::empty()) };
        proof {
            assert(h.buffer@ =~= h.log@.skip(h.dropped()));
        }
        h
    }

    /// Publishes one event: appends it to the log, dropping the oldest
    /// retained event if the buffer is full. Never blocks, never fails,
    /// whether or not anyone is subscribed.
    pub fn publish(&mut self, p: Player)
        requires
            old(self).wf(),
            old(self).log().len() < usize::MAX,
        ensures
            final(self).wf(),
            final(self).log() == old(self).log().push(p),
            final(self).capacity_spec() == old(self).capacity_spec(),
    {
        if self.buffer.len() == self.capacity {
            self.buffer.remove(0);
        }
        proof {
            self.log@ = self.log@.push(p);
        }
        self.buffer.push(p);
        self.next_seq = self.next_seq + 1;
        proof {
            assert(self.buffer@ =~= self.log@.skip(self.dropped()));
        }
    }

    /// How many events have ever been published.
    pub fn published(&self) -> (n: usize)
        requires
            self.wf(),
        ensures
            n == self.log().len(),
    {
        self.next_seq
    }

    /// A new subscription. It sees only events published after this call.
    pub fn subscribe(&self) -> (s: Subscription)
        requires
            self.wf(),
        ensures
            self.valid_subscription(s),
            s.next_to_read() == self.log().len(),
    {
        Subscription { cursor: self.next_seq }
    }

    /// One receive attempt for a subscriber. Caught-up subscribers get
    /// `Empty`; lagging ones are moved to the oldest retained event and
    /// told how many they missed; otherwise the subscriber gets exactly
    /// the log entry at its cursor and advances past it.
    pub fn recv(&self, s: &mut Subscription) -> (r: RecvOutcome)
        requires
            self.wf(),
            self.valid_subscription(*old(s)),
        ensures
            self.valid_subscription(*final(s)),
            final(s).next_to_read() >= old(s).next_to_read(),
            old(s).next_to_read() < self.dropped() ==> {
                &&& r == RecvOutcome::Lagged((self.dropped() - old(s).next_to_read()) as usize)
                &&& final(s).next_to_read() == self.dropped()
            },
            old(s).next_to_read() >= self.dropped() && old(s).next_to_read() < self.log().len()
                ==> {
                &&& r == RecvOutcome::Msg(self.log()[old(s).next_to_read()])
                &&& final(s).next_to_read() == old(s).next_to_read() + 1
            },
            old(s).next_to_read() == self.log().len() ==> {
                &&& r == RecvOutcome::Empty
                &&& final(s).next_to_read() == old(s).next_to_read()
            },
    {
        let oldest = self.next_seq - self.buffer.len();
        if s.cursor >= self.next_seq {
            RecvOutcome::Empty
        } else if s.cursor < oldest {
            let missed = oldest - s.cursor;
            s.cursor = oldest;
            RecvOutcome::Lagged(missed)
        } else {
            let idx = s.cursor - oldest;
            let p = self.buffer[idx].clone();
            proof {
                assert(self.buffer@[idx as int] == self.log@.skip(self.dropped())[idx as int]);
                assert(self.log@.skip(self.dropped())[idx as int] == self.log@[s.cursor as int]);
            }
            s.cursor = s.cursor + 1;
            RecvOutcome::Msg(p)
        }
    }
}

} // verus!
