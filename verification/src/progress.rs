//! Progress reporting from worker to presentation: per-step
//! snapshots, the order-preserving channel that carries each exactly
//! once, and the single-slot cache holding the most recent one.

use vstd::prelude::*;

use crate::agent::Heading;
use crate::grid::{same_maze, Maze, Point};

verus! {

/// A point-in-time capture of the simulation, emitted once per worker
/// step: the agent's cell and heading, its goal, whether the run is
/// complete, and the grid as it stood after the step.
pub struct Snapshot {
    pub position: Point,
    pub heading: Heading,
    pub goal: Point,
    pub finished: bool,
    pub grid: Maze,
}

/// Two snapshots record the same observation.
pub open spec fn same_snapshot(a: Snapshot, b: Snapshot) -> bool {
    &&& a.position == b.position
    &&& a.heading == b.heading
    &&& a.goal == b.goal
    &&& a.finished == b.finished
    &&& same_maze(a.grid, b.grid)
}

impl Snapshot {
    /// A field-for-field copy of the snapshot.
    pub fn duplicate(&self) -> (r: Snapshot)
        ensures
            same_snapshot(r, *self),
    {
        Snapshot {
            position: self.position,
            heading: self.heading,
            goal: self.goal,
            finished: self.finished,
            grid: self.grid.duplicate(),
        }
    }
}

/// What polling the channel yields: one snapshot, nothing for now, or
/// the sender is gone for good.
pub enum Poll {
    Progress(Snapshot),
    Empty,
    Closed,
}

/// The one-directional worker-to-presentation message path.  `queue`
/// holds the snapshots sent but not yet received; `sent` and
/// `delivered` are the ghost transcripts of the two endpoints.
pub struct ProgressChannel {
    pub queue: Vec<Snapshot>,
    pub closed: bool,
    pub sent: Ghost<Seq<Snapshot>>,
    pub delivered: Ghost<Seq<Snapshot>>,
}

impl ProgressChannel {
    /// Transport invariant: everything ever sent is what was already
    /// delivered followed, in order, by what is still queued.
    pub open spec fn wf(self) -> bool {
        self.sent@ == self.delivered@ + self.queue@
    }

    pub fn new() -> (r: ProgressChannel)
        ensures
            r.wf(),
            !r.closed,
            r.sent@.len() == 0,
            r.delivered@.len() == 0,
            r.queue@.len() == 0,
    {
        let r = ProgressChannel {
            queue: Vec::new(),
            closed: false,
            sent: Ghost(Seq::empty()),
            delivered: Ghost(Seq::empty()),
        };
        proof {
            assert(r.sent@ =~= r.delivered@ + r.queue@);
        }
        r
    }

    /// Send never blocks and never reorders: the snapshot goes to the
    /// back of the queue and onto the sender's transcript.
    pub fn send(&mut self, s: Snapshot)
        requires
            old(self).wf(),
            !old(self).closed,
        ensures
            final(self).wf(),
            !final(self).closed,
            final(self).queue@ == old(self).queue@.push(s),
            final(self).sent@ == old(self).sent@.push(s),
            final(self).delivered@ == old(self).delivered@,
    {
        self.queue.push(s);
        self.sent = Ghost(self.sent@.push(s));
        proof {
            assert(self.sent@ =~= self.delivered@ + self.queue@);
        }
    }

    /// Non-blocking poll: the oldest queued snapshot if any, `Empty`
    /// on a live but quiet channel, `Closed` once the sender is gone
    /// and everything has been delivered.
    pub fn try_receive(&mut self) -> (r: Poll)
        requires
            old(self).wf(),
        ensures
            final(self).wf(),
            final(self).closed == old(self).closed,
            final(self).sent@ == old(self).sent@,
            old(self).queue@.len() > 0 ==> (r matches Poll::Progress(s) && s == old(self).queue@[0]
                && final(self).queue@ == old(self).queue@.subrange(
                1,
                old(self).queue@.len() as int,
            ) && final(self).delivered@ == old(self).delivered@.push(old(self).queue@[0])),
            old(self).queue@.len() == 0 ==> (*final(self) == *old(self) && (if old(self).closed {
                r matches Poll::Closed
            } else {
                r matches Poll::Empty
            })),
    {
        if self.queue.len() > 0 {
            let s = self.queue.remove(0);
            self.delivered = Ghost(self.delivered@.push(s));
            proof {
                assert(self.sent@ =~= self.delivered@ + self.queue@);
            }
            Poll::Progress(s)
        } else if self.closed {
            Poll::Closed
        } else {
            Poll::Empty
        }
    }

    /// The sender is gone; the receiver treats this as "no more
    /// progress this run", never as an error.
    pub fn close(&mut self)
        requires
            old(self).wf(),
        ensures
            final(self).wf(),
            final(self).closed,
            final(self).queue@ == old(self).queue@,
            final(self).sent@ == old(self).sent@,
            final(self).delivered@ == old(self).delivered@,
    {
        self.closed = true;
    }
}

/// Delivery law: what the receiver has observed is, in order, a
/// prefix of what the worker sent — no loss, no duplication, no
/// reordering — and once the queue is drained the two transcripts
/// agree exactly.
pub proof fn lemma_delivery_exact(ch: ProgressChannel)
    requires
        ch.wf(),
    ensures
        ch.delivered@ == ch.sent@.subrange(0, ch.delivered@.len() as int),
        ch.queue@.len() == 0 ==> ch.delivered@ == ch.sent@,
{
    assert(ch.delivered@ =~= ch.sent@.subrange(0, ch.delivered@.len() as int));
    if ch.queue@.len() == 0 {
        assert(ch.delivered@ =~= ch.sent@);
    }
}

/// The single-slot holder of the most recent snapshot; before any run
/// has produced one it is empty and the presentation falls back to an
/// idle picture.
pub struct LatestSnapshotCache {
    pub slot: Option<Snapshot>,
}

impl LatestSnapshotCache {
    pub fn new() -> (r: LatestSnapshotCache)
        ensures
            r.slot is None,
    {
        LatestSnapshotCache { slot: None }
    }

    /// Overwrite unconditionally with the newest snapshot.
    pub fn set(&mut self, s: Snapshot)
        ensures
            final(self).slot == Some(s),
    {
        self.slot = Some(s);
    }

    /// The last snapshot set, if any run has produced one yet.
    pub fn get(&self) -> (r: Option<&Snapshot>)
        ensures
            match r {
                Some(s) => self.slot matches Some(v) && *s == v,
                None => self.slot is None,
            },
    {
        match &self.slot {
            Some(s) => Some(s),
            None => None,
        }
    }
}

} // verus!
