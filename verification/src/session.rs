//! The whole coordination core in one place: the shared maze, the
//! start/finish handshake, the progress channel and cache, the
//! worker, the deferred-regeneration slot, and the shared tunables.
//!
//! The presentation context calls `request_start`,
//! `request_regenerate`, `frame` and the tunable setters; the worker
//! context calls `worker_poll`, `worker_step` and `worker_rest`.

use vstd::prelude::*;

use crate::grid::{explorable, same_walls, Maze};
use crate::progress::{same_snapshot, LatestSnapshotCache, Poll, ProgressChannel, Snapshot};
use crate::signal::RunSignal;
use crate::worker::{SimulationWorker, StepOutcome, WorkerState};

verus! {

/// What one presentation frame is told to do: draw every drained
/// snapshot in order, keep repainting while the run is live, or fall
/// back to the cached picture.
pub struct FrameResult {
    pub drained: Vec<Snapshot>,
    pub repaint: bool,
    pub fallback: Option<Snapshot>,
}

/// The shared state of one simulation: exactly one worker ever runs
/// against it.
pub struct Simulation {
    pub maze: Maze,
    pub pending: Option<Maze>,
    pub signal: RunSignal,
    pub worker: SimulationWorker,
    pub channel: ProgressChannel,
    pub cache: LatestSnapshotCache,
    pub step_delay: u32,
    pub active: bool,
}

impl Simulation {
    /// The standing invariant of the whole core.
    pub open spec fn wf(self) -> bool {
        &&& explorable(self.maze)
        &&& self.worker.wf(self.maze)
        &&& self.signal.wf()
        &&& self.channel.wf()
        &&& !self.channel.closed
        &&& (self.worker.busy() ==> self.signal.started)
        &&& (self.pending matches Some(pm) ==> pm.generated_ok() && !(self.worker.state is Idle))
        &&& self.step_delay <= 1000
    }

    /// A fresh core around an admitted maze; nothing has run yet.
    pub fn new(maze: Maze) -> (r: Simulation)
        requires
            maze.generated_ok(),
        ensures
            r.wf(),
            r.maze == maze,
            r.pending is None,
            !r.signal.started,
            r.signal.starts@ == 0,
            r.signal.finishes@ == 0,
            r.worker.state is Idle,
            r.channel.sent@.len() == 0,
            r.channel.delivered@.len() == 0,
            r.cache.slot is None,
            r.step_delay == 100,
            !r.active,
    {
        Simulation {
            maze,
            pending: None,
            signal: RunSignal::new(),
            worker: SimulationWorker::new(),
            channel: ProgressChannel::new(),
            cache: LatestSnapshotCache::new(),
            step_delay: 100,
            active: false,
        }
    }

    /// The presentation context requests a run.  While one is already
    /// requested or active this is a no-op: no second run is queued.
    pub fn request_start(&mut self)
        requires
            old(self).wf(),
        ensures
            final(self).wf(),
            final(self).signal.started,
            final(self).signal.finishes@ == old(self).signal.finishes@,
            old(self).signal.started ==> final(self).signal == old(self).signal,
            !old(self).signal.started ==> final(self).signal.starts@ == old(self).signal.starts@
                + 1,
            final(self).maze == old(self).maze,
            final(self).pending == old(self).pending,
            final(self).worker == old(self).worker,
            final(self).channel == old(self).channel,
            final(self).cache == old(self).cache,
    {
        self.signal.start();
    }

    /// A regeneration request.  Honored at once only while the worker
    /// is idle; otherwise the maze of the pass in progress stays
    /// untouched and the new maze waits in the pending slot until the
    /// worker has returned to waiting.
    pub fn request_regenerate(&mut self, nm: Maze) -> (applied: bool)
        requires
            old(self).wf(),
            nm.generated_ok(),
        ensures
            final(self).wf(),
            applied == old(self).worker.state is Idle,
            applied ==> final(self).maze == nm && final(self).pending is None,
            !applied ==> final(self).maze == old(self).maze && (final(self).pending == Some(nm)),
            final(self).signal == old(self).signal,
            final(self).worker == old(self).worker,
            final(self).channel == old(self).channel,
            final(self).cache == old(self).cache,
    {
        if matches!(self.worker.state, WorkerState::Idle) {
            self.maze = nm;
            self.pending = None;
            true
        } else {
            self.pending = Some(nm);
            false
        }
    }

    /// The worker context, woken, picks up a requested run: with the
    /// signal up and the worker idle a fresh agent is created on the
    /// maze's start cell and sensing begins.
    pub fn worker_poll(&mut self) -> (began: bool)
        requires
            old(self).wf(),
        ensures
            final(self).wf(),
            began == (old(self).signal.started && old(self).worker.state is Idle),
            began ==> final(self).worker.state is Sensing && final(self).worker.agent is Some
                && final(self).worker.agent.unwrap().position == old(self).maze.start
                && final(self).worker.agent.unwrap().goal == old(self).maze.finish,
            !began ==> final(self).worker == old(self).worker,
            final(self).maze == old(self).maze,
            final(self).pending == old(self).pending,
            final(self).signal == old(self).signal,
            final(self).channel == old(self).channel,
            final(self).cache == old(self).cache,
    {
        let idle = matches!(self.worker.state, WorkerState::Idle);
        if self.signal.is_started() && idle {
            self.worker.begin_run(&self.maze);
            true
        } else {
            false
        }
    }

    /// One worker step against the shared state; see
    /// `SimulationWorker::step` for the three outcomes.
    pub fn worker_step(&mut self) -> (outcome: StepOutcome)
        requires
            old(self).wf(),
            old(self).worker.state is Sensing,
        ensures
            final(self).wf(),
            same_walls(old(self).maze, final(self).maze),
            final(self).pending == old(self).pending,
            final(self).channel.delivered@ == old(self).channel.delivered@,
            final(self).signal.starts@ == old(self).signal.starts@,
            outcome is Finished <==> old(self).worker.agent.unwrap().position == old(self).maze.finish,
            (outcome is Finished ==> {
                &&& final(self).worker.state is Finished
                &&& !final(self).signal.started
                &&& final(self).signal.finishes@ == old(self).signal.finishes@ + 1
                &&& final(self).channel.sent@.len() == old(self).channel.sent@.len() + 1
                &&& final(self).channel.sent@ == old(self).channel.sent@.push(
                    final(self).channel.sent@.last(),
                )
                &&& final(self).channel.sent@.last().finished
                &&& final(self).channel.sent@.last().position == old(self).maze.finish
                &&& (final(self).cache.slot matches Some(c) && c.finished && c.position == old(self).maze.finish)
            }),
            (outcome is Moved ==> {
                &&& final(self).worker.state is Sensing
                &&& final(self).signal == old(self).signal
                &&& final(self).channel.sent@.len() == old(self).channel.sent@.len() + 1
                &&& final(self).channel.sent@ == old(self).channel.sent@.push(
                    final(self).channel.sent@.last(),
                )
                &&& !final(self).channel.sent@.last().finished
                &&& final(self).channel.sent@.last().position == final(self).worker.agent.unwrap().position
            }),
            (outcome is Blocked ==> {
                &&& final(self).worker == old(self).worker
                &&& final(self).maze == old(self).maze
                &&& final(self).signal == old(self).signal
                &&& final(self).channel == old(self).channel
                &&& final(self).cache == old(self).cache
                &&& old(self).maze.start == old(self).maze.finish
            }),
    {
        let outcome = self.worker.step(
            &mut self.maze,
            &mut self.channel,
            &mut self.cache,
            &mut self.signal,
        );
        proof {
            if self.pending is Some {
                assert(!(self.worker.state is Idle));
            }
        }
        outcome
    }

    /// After a completed pass the worker goes back to waiting, and a
    /// regeneration that was deferred during the run takes effect
    /// now: the next start sees the new maze.
    pub fn worker_rest(&mut self)
        requires
            old(self).wf(),
            old(self).worker.state is Finished,
        ensures
            final(self).wf(),
            final(self).worker.state is Idle,
            final(self).worker.agent is None,
            final(self).pending is None,
            (match old(self).pending {
                Some(pm) => final(self).maze == pm,
                None => final(self).maze == old(self).maze,
            }),
            final(self).signal == old(self).signal,
            final(self).channel == old(self).channel,
            final(self).cache == old(self).cache,
    {
        self.worker.return_to_idle();
        let pend = self.pending.take();
        match pend {
            Some(nm) => {
                self.maze = nm;
            },
            None => {},
        }
    }

    /// One presentation frame: drain every pending snapshot in the
    /// order sent, ask for continuous repaint while the newest one is
    /// unfinished, and otherwise fall back to the cached picture.
    pub fn frame(&mut self) -> (r: FrameResult)
        requires
            old(self).wf(),
        ensures
            final(self).wf(),
            r.drained@ == old(self).channel.queue@,
            final(self).channel.queue@.len() == 0,
            final(self).channel.sent@ == old(self).channel.sent@,
            final(self).channel.delivered@ == old(self).channel.delivered@ + old(self).channel.queue@,
            r.repaint == (r.drained@.len() > 0 && !r.drained@.last().finished),
            r.repaint ==> r.fallback is None,
            !r.repaint ==> (match old(self).cache.slot {
                Some(c) => r.fallback matches Some(s) && same_snapshot(s, c),
                None => r.fallback is None,
            }),
            final(self).maze == old(self).maze,
            final(self).pending == old(self).pending,
            final(self).signal == old(self).signal,
            final(self).worker == old(self).worker,
            final(self).cache == old(self).cache,
    {
        let mut drained: Vec<Snapshot> = Vec::new();
        loop
            invariant
                self.wf(),
                self.channel.sent@ == old(self).channel.sent@,
                old(self).channel.queue@ == drained@ + self.channel.queue@,
                self.channel.delivered@ == old(self).channel.delivered@ + drained@,
                self.maze == old(self).maze,
                self.pending == old(self).pending,
                self.signal == old(self).signal,
                self.worker == old(self).worker,
                self.cache == old(self).cache,
                self.step_delay == old(self).step_delay,
                self.active == old(self).active,
            ensures
                self.channel.queue@.len() == 0,
            decreases self.channel.queue@.len(),
        {
            let ghost q_pre = self.channel.queue@;
            let ghost drained_pre = drained@;
            match self.channel.try_receive() {
                Poll::Progress(s) => {
                    drained.push(s);
                    proof {
                        assert(q_pre == Seq::empty().push(q_pre[0]) + self.channel.queue@);
                        assert(old(self).channel.queue@ =~= drained@ + self.channel.queue@);
                        assert(self.channel.delivered@ =~= old(self).channel.delivered@
                            + drained@);
                    }
                },
                _ => {
                    break ;
                },
            }
        }
        proof {
            assert(old(self).channel.queue@ =~= drained@);
            assert(self.channel.delivered@ =~= old(self).channel.delivered@ + old(self).channel.queue@);
        }
        let n = drained.len();
        let repaint = if n > 0 {
            !drained[n - 1].finished
        } else {
            false
        };
        let fallback = if repaint {
            None
        } else {
            match self.cache.get() {
                Some(s) => Some(s.duplicate()),
                None => None,
            }
        };
        FrameResult { drained, repaint, fallback }
    }

    /// The pacing tunable: how long the worker rests between accepted
    /// steps, in time units, at most 1000.
    pub fn set_delay(&mut self, d: u32)
        requires
            old(self).wf(),
            d <= 1000,
        ensures
            final(self).wf(),
            final(self).step_delay == d,
            final(self).maze == old(self).maze,
            final(self).signal == old(self).signal,
            final(self).worker == old(self).worker,
            final(self).channel == old(self).channel,
    {
        self.step_delay = d;
    }

    pub fn get_delay(&self) -> (r: u32)
        ensures
            r == self.step_delay,
    {
        self.step_delay
    }

    /// The display flag: clearing it stops the presentation from
    /// repainting but never stops an in-flight run.
    pub fn set_active(&mut self, on: bool)
        requires
            old(self).wf(),
        ensures
            final(self).wf(),
            final(self).active == on,
            final(self).maze == old(self).maze,
            final(self).signal == old(self).signal,
            final(self).worker == old(self).worker,
            final(self).channel == old(self).channel,
    {
        self.active = on;
    }

    pub fn is_active(&self) -> (r: bool)
        ensures
            r == self.active,
    {
        self.active
    }
}

} // verus!
