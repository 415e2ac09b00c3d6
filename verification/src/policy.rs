//! The per-connection write policy: what one outbound-write outcome does
//! to the connection. A delivery resets the failure count, a timeout is
//! tolerated (the next broadcast supersedes the lost one), and failures
//! past the configured threshold turn into a disconnect decision.

use vstd::prelude::*;

verus! {

/// The outcome of one attempt to write to a client.
#[derive(Clone, Copy, PartialEq, Eq, Structural, Debug)]
pub enum WriteEvent {
    /// The write completed.
    Delivered,
    /// The write returned an error.
    Failed,
    /// The write did not finish within its timeout; the update is
    /// dropped, not retried.
    TimedOut,
}

/// What the connection's sender loop should do next.
#[derive(Clone, Copy, PartialEq, Eq, Structural, Debug)]
pub enum WriteDecision {
    Continue,
    /// Failures exceeded the threshold: treat the client as gone.
    Disconnect,
}

/// The failure-count policy for one connection's outbound writes.
pub struct WritePolicy {
    fails: u64,
    threshold: u64,
}

impl WritePolicy {
    /// Consecutive failed writes so far.
    pub closed spec fn fails(self) -> int {
        self.fails as int
    }

    /// How many consecutive failures are tolerated before disconnecting.
    pub closed spec fn threshold(self) -> int {
        self.threshold as int
    }

    pub fn new(threshold: u64) -> (p: WritePolicy)
        ensures
            p.fails() == 0,
            p.threshold() == threshold,
    {
        WritePolicy { fails: 0, threshold }
    }

    /// Feeds one write outcome to the policy: a delivery resets the
    /// count, a timeout leaves it alone, and a failure either raises it
    /// or, once the threshold is already reached, decides to disconnect.
    pub fn on_event(&mut self, e: WriteEvent) -> (d: WriteDecision)
        ensures
            final(self).threshold() == old(self).threshold(),
            match e {
                WriteEvent::Delivered => final(self).fails() == 0 && d == WriteDecision::Continue,
                WriteEvent::TimedOut => final(self).fails() == old(self).fails() && d
                    == WriteDecision::Continue,
                WriteEvent::Failed => if old(self).fails() < old(self).threshold() {
                    final(self).fails() == old(self).fails() + 1 && d == WriteDecision::Continue
                } else {
                    final(self).fails() == old(self).fails() && d == WriteDecision::Disconnect
                },
            },
    {
        match e {
            WriteEvent::Delivered => {
                self.fails = 0;
                WriteDecision::Continue
            },
            WriteEvent::TimedOut => WriteDecision::Continue,
            WriteEvent::Failed => {
                if self.fails < self.threshold {
                    self.fails = self.fails + 1;
                    WriteDecision::Continue
                } else {
                    WriteDecision::Disconnect
                }
            },
        }
    }
}

} // verus!
