//! The simulation worker: the state machine that drives one agent
//! through the maze, one accepted move per step, emitting one
//! snapshot per step into the channel and the cache.

use vstd::prelude::*;

use crate::agent::{agent_ok, move_committed, spec_look, Agent, Facing, Heading};
use crate::controller::{can_move, lemma_run_never_stuck, DumboController};
use crate::grid::{
    adjacent, explorable, lemma_reachable_step, lemma_same_walls_connected,
    lemma_same_walls_reachable, lemma_start_reachable, lemma_visit_same_walls, reachable,
    same_maze, same_walls, Maze, Tile,
};
use crate::progress::{LatestSnapshotCache, ProgressChannel, Snapshot};
use crate::signal::RunSignal;

verus! {

/// Where the worker stands: dormant, choosing a direction, committing
/// a move, or just done with a pass and about to go dormant again.
#[derive(Clone, Copy, PartialEq, Eq, Structural, Debug)]
pub enum WorkerState {
    Idle,
    Sensing,
    Moving,
    Finished,
}

/// What one worker step did.
#[derive(Clone, Copy, PartialEq, Eq, Structural, Debug)]
pub enum StepOutcome {
    Finished,
    Moved,
    Blocked,
}

/// A snapshot records exactly the given agent against the given grid.
pub open spec fn snapshot_of(m: Maze, a: Agent, finished: bool, s: Snapshot) -> bool {
    &&& s.position == a.position
    &&& s.heading == a.heading
    &&& s.goal == a.goal
    &&& s.finished == finished
    &&& same_maze(s.grid, m)
}

/// The worker that owns the one agent of the one active run.
pub struct SimulationWorker {
    pub state: WorkerState,
    pub agent: Option<Agent>,
    pub controller: DumboController,
}

impl SimulationWorker {
    /// A run is in progress: the worker is between its start and its
    /// completion report.
    pub open spec fn busy(self) -> bool {
        self.state is Sensing || self.state is Moving
    }

    /// Whenever a run is under way or just done, the worker holds an
    /// agent standing on a walkable, reachable cell and aiming at the
    /// maze's finish.
    pub open spec fn wf(self, m: Maze) -> bool {
        (self.busy() || self.state is Finished) ==> (self.agent matches Some(a) && agent_ok(m, a)
            && a.goal == m.finish && reachable(m, a.position))
    }

    pub fn new() -> (r: SimulationWorker)
        ensures
            r.state is Idle,
            r.agent is None,
            forall|m: Maze| r.wf(m),
    {
        SimulationWorker { state: WorkerState::Idle, agent: None, controller: DumboController }
    }

    /// Wake up to an observed start: create a fresh agent on the
    /// start cell, facing East, aimed at the finish, and begin
    /// sensing.
    pub fn begin_run(&mut self, m: &Maze)
        requires
            old(self).state is Idle,
            explorable(*m),
        ensures
            final(self).state is Sensing,
            final(self).agent == Some(
                Agent { position: m.start, heading: Heading::East, goal: m.finish },
            ),
            final(self).wf(*m),
    {
        self.agent = Some(Agent::new(m.get_start(), Heading::East, m.get_finish()));
        self.state = WorkerState::Sensing;
        proof {
            lemma_start_reachable(*m);
        }
    }

    /// One full pass of the loop body: if the agent stands on the
    /// goal, emit the final snapshot, report the run complete and
    /// move to `Finished`; otherwise sense, commit one accepted move
    /// through `Moving`, and emit the step's snapshot.  When every
    /// facing is walled off nothing changes.
    pub fn step(
        &mut self,
        m: &mut Maze,
        ch: &mut ProgressChannel,
        cache: &mut LatestSnapshotCache,
        sig: &mut RunSignal,
    ) -> (outcome: StepOutcome)
        requires
            old(self).state is Sensing,
            old(self).wf(*old(m)),
            explorable(*old(m)),
            old(ch).wf(),
            !old(ch).closed,
            old(sig).wf(),
            old(sig).started,
        ensures
            explorable(*final(m)),
            final(self).wf(*final(m)),
            final(ch).wf(),
            !final(ch).closed,
            final(sig).wf(),
            same_walls(*old(m), *final(m)),
            final(ch).delivered@ == old(ch).delivered@,
            final(self).agent is Some,
            outcome is Finished <==> old(self).agent.unwrap().position == old(m).finish,
            (outcome is Finished ==> {
                let a0 = old(self).agent.unwrap();
                &&& *final(m) == *old(m)
                &&& final(self).state is Finished
                &&& final(self).agent == old(self).agent
                &&& final(ch).sent@.len() == old(ch).sent@.len() + 1
                &&& final(ch).sent@ == old(ch).sent@.push(final(ch).sent@.last())
                &&& snapshot_of(*final(m), a0, true, final(ch).sent@.last())
                &&& (final(cache).slot matches Some(c) && snapshot_of(*final(m), a0, true, c))
                &&& !final(sig).started
                &&& final(sig).starts@ == old(sig).starts@
                &&& final(sig).finishes@ == old(sig).finishes@ + 1
            }),
            (outcome is Moved ==> {
                let a0 = old(self).agent.unwrap();
                let a1 = final(self).agent.unwrap();
                &&& final(self).state is Sensing
                &&& (exists|f: Facing|
                    #[trigger] spec_look(*old(m), a0, f) != Tile::Wall && move_committed(
                        *old(m),
                        a0,
                        f,
                        *final(m),
                        a1,
                    ))
                &&& final(ch).sent@.len() == old(ch).sent@.len() + 1
                &&& final(ch).sent@ == old(ch).sent@.push(final(ch).sent@.last())
                &&& snapshot_of(*final(m), a1, false, final(ch).sent@.last())
                &&& (final(cache).slot matches Some(c) && snapshot_of(*final(m), a1, false, c))
                &&& *final(sig) == *old(sig)
            }),
            (outcome is Blocked ==> {
                &&& *final(m) == *old(m)
                &&& final(self).state == old(self).state
                &&& final(self).agent == old(self).agent
                &&& *final(ch) == *old(ch)
                &&& *final(sig) == *old(sig)
                &&& *final(cache) == *old(cache)
                &&& !can_move(*old(m), old(self).agent.unwrap())
            }),
            (outcome is Moved ==> can_move(*old(m), old(self).agent.unwrap())),
            (outcome is Blocked ==> old(m).start == old(m).finish),
    {
        let mut ag = self.agent.unwrap();
        let goal = m.get_finish();
        if ag.position.x == goal.x && ag.position.y == goal.y {
            let snap = Snapshot {
                position: ag.position,
                heading: ag.heading,
                goal: ag.goal,
                finished: true,
                grid: m.duplicate(),
            };
            cache.set(snap.duplicate());
            ch.send(snap);
            sig.finish_run();
            self.state = WorkerState::Finished;
            StepOutcome::Finished
        } else {
            self.state = WorkerState::Moving;
            let moved = self.controller.control_robot(m, &mut ag);
            if moved {
                self.agent = Some(ag);
                self.state = WorkerState::Sensing;
                proof {
                    let a0 = old(self).agent.unwrap();
                    let f = choose|f: Facing|
                        #[trigger] spec_look(*old(m), a0, f) != Tile::Wall && move_committed(
                            *old(m),
                            a0,
                            f,
                            *m,
                            ag,
                        );
                    lemma_visit_same_walls(*old(m), *m, a0.position);
                    lemma_same_walls_connected(*old(m), *m);
                    assert(m.tile_at(m.start) != Tile::Wall);
                    assert(m.tile_at(m.finish) != Tile::Wall);
                    assert(adjacent(a0.position, ag.position));
                    assert(old(m).tile_at(ag.position) != Tile::Wall);
                    lemma_reachable_step(*old(m), a0.position, ag.position);
                    lemma_same_walls_reachable(*old(m), *m, ag.position);
                }
                let snap = Snapshot {
                    position: ag.position,
                    heading: ag.heading,
                    goal: ag.goal,
                    finished: false,
                    grid: m.duplicate(),
                };
                cache.set(snap.duplicate());
                ch.send(snap);
                StepOutcome::Moved
            } else {
                self.agent = Some(ag);
                self.state = WorkerState::Sensing;
                proof {
                    if old(m).start != old(m).finish {
                        lemma_run_never_stuck(*old(m), old(self).agent.unwrap());
                        assert(false);
                    }
                }
                StepOutcome::Blocked
            }
        }
    }

    /// Return to waiting after a completed pass; the finished agent
    /// is discarded.
    pub fn return_to_idle(&mut self)
        requires
            old(self).state is Finished,
        ensures
            final(self).state is Idle,
            final(self).agent is None,
    {
        self.agent = None;
        self.state = WorkerState::Idle;
    }
}

} // verus!
