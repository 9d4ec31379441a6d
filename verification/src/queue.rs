//! The command queue: the ordered buffer of (address key, command) pairs that
//! the ingestion path appends to and the simulation path drains once per
//! tick.
//!
//! The contracts here are the sequential half of the queue's atomicity story:
//! `enqueue` appends exactly one entry and `drain_all` hands back exactly the
//! queued entries, in order, leaving the queue empty — nothing is lost and
//! nothing is duplicated across a drain boundary. The caller serializes
//! access with a lock scoped to the queue alone, so each call sees the queue
//! exactly as these contracts describe it.

use vstd::prelude::*;

use crate::game::Command;

verus! {

/// An ordered buffer of (address key, command) pairs, in arrival order.
pub struct CommandQueue {
    entries: Vec<(u64, Command)>,
}

impl View for CommandQueue {
    type V = Seq<(u64, Command)>;

    closed spec fn view(&self) -> Seq<(u64, Command)> {
        self.entries@
    }
}

impl CommandQueue {
    /// An empty queue.
    pub fn new() -> (q: CommandQueue)
        ensures
            q@ == Seq::<(u64, Command)>::empty(),
    {
        CommandQueue { entries: Vec::new() }
    }

    /// Number of queued entries.
    pub fn len(&self) -> (n: usize)
        ensures
            n == self@.len(),
    {
        self.entries.len()
    }

    /// Append one entry; every earlier entry stays where it was.
    pub fn enqueue(&mut self, addr: u64, cmd: Command)
        ensures
            final(self)@ == old(self)@.push((addr, cmd)),
    {
        self.entries.push((addr, cmd));
    }

    /// Remove and return every queued entry at once: the result is exactly
    /// the queue's prior contents, in order, and the queue is empty after.
    pub fn drain_all(&mut self) -> (out: Vec<(u64, Command)>)
        ensures
            out@ == old(self)@,
            final(self)@ == Seq::<(u64, Command)>::empty(),
    {
        let mut out: Vec<(u64, Command)> = Vec::new();
        core::mem::swap(&mut out, &mut self.entries);
        out
    }
}

/// The queue contents after a batch of arrivals has been enqueued one at a
/// time, oldest first.
pub open spec fn spec_enqueue_all(
    q: Seq<(u64, Command)>,
    arrivals: Seq<(u64, Command)>,
) -> Seq<(u64, Command)>
    decreases arrivals.len(),
{
    if arrivals.len() == 0 {
        q
    } else {
        spec_enqueue_all(q.push(arrivals[0]), arrivals.drop_first())
    }
}

/// Queue atomicity, as far as it is a property of the queue's own
/// transitions: enqueuing a batch of arrivals one at a time loses no entry,
/// duplicates no entry and keeps arrival order, so the drain that follows
/// (whose contract returns the contents exactly) yields every entry exactly
/// once — the earlier contents followed by the arrivals.
pub proof fn lemma_queue_atomic(q: Seq<(u64, Command)>, arrivals: Seq<(u64, Command)>)
    ensures
        spec_enqueue_all(q, arrivals) == q + arrivals,
        spec_enqueue_all(q, arrivals).len() == q.len() + arrivals.len(),
        spec_enqueue_all(q, arrivals).to_multiset() == q.to_multiset().add(
            arrivals.to_multiset(),
        ),
    decreases arrivals.len(),
{
    if arrivals.len() == 0 {
        assert(q + arrivals =~= q);
    } else {
        lemma_queue_atomic(q.push(arrivals[0]), arrivals.drop_first());
        assert(q.push(arrivals[0]) + arrivals.drop_first() =~= q + arrivals);
    }
    vstd::seq_lib::lemma_multiset_commutative(q, arrivals);
}

} // verus!
