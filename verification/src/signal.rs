//! The start/finish handshake between the presentation context and
//! the worker: a single "started" flag with ghost accounting of how
//! many runs were started and how many completed.

use vstd::prelude::*;

verus! {

/// The run handshake.  `started` is the visible flag; `starts` and
/// `finishes` count the flag's observed transitions and exist only in
/// the proof.
pub struct RunSignal {
    pub started: bool,
    pub starts: Ghost<nat>,
    pub finishes: Ghost<nat>,
}

impl RunSignal {
    /// Accounting invariant: runs never overlap, so started runs
    /// exceed completed ones by exactly the one in flight, if any.
    pub open spec fn wf(self) -> bool {
        self.starts@ == self.finishes@ + (if self.started {
            1nat
        } else {
            0nat
        })
    }

    pub fn new() -> (r: RunSignal)
        ensures
            r.wf(),
            !r.started,
            r.starts@ == 0,
            r.finishes@ == 0,
    {
        RunSignal { started: false, starts: Ghost(0nat), finishes: Ghost(0nat) }
    }

    /// Request a run.  Starting is idempotent: while a run is already
    /// requested or active the call changes nothing and queues no
    /// second run.
    pub fn start(&mut self)
        requires
            old(self).wf(),
        ensures
            final(self).wf(),
            final(self).started,
            final(self).finishes@ == old(self).finishes@,
            old(self).started ==> *final(self) == *old(self),
            !old(self).started ==> final(self).starts@ == old(self).starts@ + 1,
    {
        if !self.started {
            self.started = true;
            self.starts = Ghost(self.starts@ + 1);
        }
    }

    /// What a blocked worker wakes up to: whether a run is requested.
    pub fn is_started(&self) -> (r: bool)
        ensures
            r == self.started,
    {
        self.started
    }

    /// Report the active run complete.  Only the worker that observed
    /// the start calls this, and the contract admits exactly one such
    /// call per observed start.
    pub fn finish_run(&mut self)
        requires
            old(self).wf(),
            old(self).started,
        ensures
            final(self).wf(),
            !final(self).started,
            final(self).starts@ == old(self).starts@,
            final(self).finishes@ == old(self).finishes@ + 1,
    {
        self.started = false;
        self.finishes = Ghost(self.finishes@ + 1);
    }
}

/// Run accounting law: completions never outrun starts, at most one
/// run is ever in flight, and the flag tells exactly whether one is.
pub proof fn lemma_run_accounting(s: RunSignal)
    requires
        s.wf(),
    ensures
        s.finishes@ <= s.starts@,
        s.starts@ <= s.finishes@ + 1,
        s.started ==> s.starts@ == s.finishes@ + 1,
        !s.started ==> s.starts@ == s.finishes@,
{
}

} // verus!
