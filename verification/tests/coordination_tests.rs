use maze_sim::grid::{Maze, Point, Tile};
use maze_sim::progress::{LatestSnapshotCache, Poll, ProgressChannel, Snapshot};
use maze_sim::session::Simulation;
use maze_sim::signal::RunSignal;
use maze_sim::worker::StepOutcome;
use maze_sim::agent::Heading;

fn grid_of(width: usize, height: usize, passages: &[(usize, usize)]) -> Vec<Tile> {
    let mut tiles = vec![Tile::Wall; width * height];
    for &(x, y) in passages {
        tiles[y * width + x] = Tile::Passage;
    }
    tiles
}

fn corridor() -> Maze {
    let tiles = grid_of(5, 5, &[(1, 1), (2, 1), (3, 1)]);
    Maze::from_parts(5, 5, tiles, Point { x: 1, y: 1 }, Point { x: 3, y: 1 })
        .expect("the corridor maze is admissible")
}

fn snapshot_at(x: usize, y: usize) -> Snapshot {
    Snapshot {
        position: Point { x, y },
        heading: Heading::East,
        goal: Point { x: 3, y: 1 },
        finished: false,
        grid: corridor(),
    }
}

fn run_to_completion(sim: &mut Simulation) -> usize {
    let mut steps = 0usize;
    loop {
        match sim.worker_step() {
            StepOutcome::Finished => return steps,
            StepOutcome::Moved => steps += 1,
            StepOutcome::Blocked => panic!("the corridor never blocks the agent"),
        }
        if steps > 1_000_000 {
            panic!("the run should have finished long ago");
        }
    }
}

#[test]
fn channel_preserves_order_without_loss_or_duplication() {
    let mut ch = ProgressChannel::new();
    ch.send(snapshot_at(1, 1));
    ch.send(snapshot_at(2, 1));
    ch.send(snapshot_at(3, 1));
    let mut seen = Vec::new();
    loop {
        match ch.try_receive() {
            Poll::Progress(s) => seen.push(s.position.x),
            Poll::Empty => break,
            Poll::Closed => panic!("the channel was never closed"),
        }
    }
    assert_eq!(seen, vec![1, 2, 3]);
    ch.close();
    assert!(matches!(ch.try_receive(), Poll::Closed));
}

#[test]
fn cache_keeps_only_the_latest() {
    let mut cache = LatestSnapshotCache::new();
    assert!(cache.get().is_none());
    cache.set(snapshot_at(1, 1));
    cache.set(snapshot_at(2, 1));
    let held = cache.get().expect("a snapshot was cached");
    assert_eq!(held.position, Point { x: 2, y: 1 });
}

#[test]
fn signal_flag_rises_and_falls() {
    let mut sig = RunSignal::new();
    assert!(!sig.is_started());
    sig.start();
    assert!(sig.is_started());
    sig.start();
    assert!(sig.is_started());
    sig.finish_run();
    assert!(!sig.is_started());
}

#[test]
fn corridor_run_reaches_the_goal() {
    let mut sim = Simulation::new(corridor());
    sim.request_start();
    assert!(sim.worker_poll());
    let moves = run_to_completion(&mut sim);
    assert!(moves >= 2, "it takes at least two moves from (1,1) to (3,1)");
    let frame = sim.frame();
    assert!(!frame.repaint, "a finished run asks for no further repaint");
    // every accepted move stays on the corridor row
    for s in frame.drained.iter() {
        assert_eq!(s.position.y, 1);
        assert!(s.position.x >= 1 && s.position.x <= 3);
        assert_eq!(s.goal, Point { x: 3, y: 1 });
    }
    let last = frame.drained.last().expect("the run produced snapshots");
    assert!(last.finished);
    assert_eq!(last.position, Point { x: 3, y: 1 });
    let cached = frame.fallback.expect("the cache holds the final picture");
    assert!(cached.finished);
    assert_eq!(cached.position, Point { x: 3, y: 1 });
}

#[test]
fn single_cell_run_finishes_without_moving() {
    let tiles = grid_of(1, 1, &[(0, 0)]);
    let m = Maze::from_parts(1, 1, tiles, Point { x: 0, y: 0 }, Point { x: 0, y: 0 }).unwrap();
    let mut sim = Simulation::new(m);
    sim.request_start();
    assert!(sim.worker_poll());
    assert!(matches!(sim.worker_step(), StepOutcome::Finished));
    let frame = sim.frame();
    assert_eq!(frame.drained.len(), 1);
    assert!(frame.drained[0].finished);
}

#[test]
fn second_start_spawns_no_second_worker() {
    let mut sim = Simulation::new(corridor());
    sim.request_start();
    assert!(sim.worker_poll());
    // a second request before the first run completes is a no-op
    sim.request_start();
    assert!(!sim.worker_poll(), "the running worker must not be restarted");
    run_to_completion(&mut sim);
    sim.worker_rest();
    // with the pass complete the worker is idle again, but the old
    // request was consumed: a fresh start is needed
    assert!(!sim.worker_poll());
    sim.request_start();
    assert!(sim.worker_poll());
}

#[test]
fn regeneration_while_idle_is_seen_by_the_next_start() {
    let mut sim = Simulation::new(corridor());
    let tiles = grid_of(3, 3, &[(0, 0), (1, 0)]);
    let small = Maze::from_parts(3, 3, tiles, Point { x: 0, y: 0 }, Point { x: 1, y: 0 }).unwrap();
    assert!(sim.request_regenerate(small));
    sim.request_start();
    assert!(sim.worker_poll());
    assert_eq!(sim.worker.agent.unwrap().position, Point { x: 0, y: 0 });
    assert_eq!(sim.maze.width, 3);
}

#[test]
fn regeneration_during_a_run_is_deferred() {
    let mut sim = Simulation::new(corridor());
    sim.request_start();
    assert!(sim.worker_poll());
    let tiles = grid_of(3, 3, &[(0, 0), (1, 0)]);
    let small = Maze::from_parts(3, 3, tiles, Point { x: 0, y: 0 }, Point { x: 1, y: 0 }).unwrap();
    assert!(!sim.request_regenerate(small));
    // the running pass keeps its maze
    assert_eq!(sim.maze.width, 5);
    assert_eq!(sim.maze.finish, Point { x: 3, y: 1 });
    run_to_completion(&mut sim);
    assert_eq!(sim.maze.width, 5, "the maze is swapped only after the pass");
    sim.worker_rest();
    assert_eq!(sim.maze.width, 3);
    assert_eq!(sim.maze.finish, Point { x: 1, y: 0 });
}

#[test]
fn frame_requests_repaint_while_unfinished() {
    let mut sim = Simulation::new(corridor());
    sim.request_start();
    assert!(sim.worker_poll());
    assert!(matches!(sim.worker_step(), StepOutcome::Moved));
    let frame = sim.frame();
    assert_eq!(frame.drained.len(), 1);
    assert!(!frame.drained[0].finished);
    assert!(frame.repaint, "an unfinished newest snapshot keeps the repaints coming");
    assert!(frame.fallback.is_none());
}

#[test]
fn idle_frame_paints_from_the_cache_or_nothing() {
    let mut sim = Simulation::new(corridor());
    let frame = sim.frame();
    assert!(frame.drained.is_empty());
    assert!(!frame.repaint);
    assert!(frame.fallback.is_none(), "before any run there is nothing to paint");
}

#[test]
fn tunables_hold_their_values() {
    let mut sim = Simulation::new(corridor());
    assert_eq!(sim.get_delay(), 100);
    sim.set_delay(1000);
    assert_eq!(sim.get_delay(), 1000);
    sim.set_delay(0);
    assert_eq!(sim.get_delay(), 0);
    assert!(!sim.is_active());
    sim.set_active(true);
    assert!(sim.is_active());
    sim.set_active(false);
    assert!(!sim.is_active());
}

#[test]
fn visited_trail_stays_walkable() {
    let mut sim = Simulation::new(corridor());
    sim.request_start();
    assert!(sim.worker_poll());
    run_to_completion(&mut sim);
    // the cells the agent crossed are Visited now, never walls
    let mut visited = 0usize;
    for y in 0..5 {
        for x in 0..5 {
            if sim.maze.get_cell(Point { x, y }) == Some(Tile::Visited) {
                visited += 1;
                assert_eq!(y, 1);
                assert!((1..=3).contains(&x));
            }
        }
    }
    assert!(visited >= 1);
}
