//! The random-avoider policy: sample a facing uniformly with
//! replacement, reject walls, and commit the first acceptable one.

use vstd::prelude::*;

use rand::Rng;

use crate::agent::{
    agent_ok, face, lemma_adjacent_heading, lemma_some_facing, look, move_committed,
    spec_neighbor_toward, spec_look, spec_resolve, Agent, Facing, Heading,
};
use crate::grid::{adjacent, explorable, is_path, reachable, Maze, Point, Tile};

verus! {

#[verifier::external_type_specification]
#[verifier::external_body]
pub struct ExThreadRng(rand::rngs::ThreadRng);

/// Relies on rand::thread_rng: a handle to the thread-local generator.
#[verifier::external_body]
fn fresh_rng() -> rand::rngs::ThreadRng {
    rand::thread_rng()
}

/// Relies on rand::Rng::gen_range over the non-empty range 0..=3,
/// which returns a value inside the range; nothing more is assumed of
/// the sample.
#[verifier::external_body]
fn sample_direction(rng: &mut rand::rngs::ThreadRng) -> (r: u8)
    ensures
        r <= 3,
{
    rng.gen_range(0..=3u8)
}

/// The facing a sampled index stands for.
pub open spec fn spec_facing_of(i: u8) -> Facing {
    if i == 0 {
        Facing::Ahead
    } else if i == 1 {
        Facing::Left
    } else if i == 2 {
        Facing::Right
    } else {
        Facing::Behind
    }
}

fn facing_of(i: u8) -> (f: Facing)
    ensures
        f == spec_facing_of(i),
{
    match i {
        0 => Facing::Ahead,
        1 => Facing::Left,
        2 => Facing::Right,
        _ => Facing::Behind,
    }
}

/// Whether any of the four facings leads onto a walkable cell.
pub open spec fn can_move(m: Maze, a: Agent) -> bool {
    exists|f: Facing| #[trigger] spec_look(m, a, f) != Tile::Wall
}

/// The deterministic half of the liveness guarantee: on an explorable
/// maze whose start and finish differ, an agent standing on any
/// reachable cell always has an acceptable facing, so the policy is
/// never deadlocked — only the number of random steps is unbounded.
pub proof fn lemma_run_never_stuck(m: Maze, a: Agent)
    requires
        explorable(m),
        agent_ok(m, a),
        reachable(m, a.position),
        m.start != m.finish,
    ensures
        can_move(m, a),
{
    let p = a.position;
    let s = choose|s: Seq<Point>| is_path(m, s) && s[0] == m.start && s[s.len() - 1] == p;
    if s.len() >= 2 {
        let q = s[s.len() - 2];
        assert(adjacent(s[s.len() - 2], s[s.len() - 1]));
        lemma_can_step_toward(m, a, q);
    } else {
        assert(p == m.start);
        let t = choose|t: Seq<Point>|
            is_path(m, t) && t[0] == m.start && t[t.len() - 1] == m.finish;
        assert(t.len() >= 2);
        let q = t[1];
        assert(adjacent(t[0], t[1]));
        lemma_can_step_toward(m, a, q);
    }
}

/// A walkable in-bounds neighbour of the agent's cell is enough: some
/// facing senses it.
proof fn lemma_can_step_toward(m: Maze, a: Agent, q: Point)
    requires
        m.wf(),
        m.in_bounds(a.position),
        m.in_bounds(q),
        m.tile_at(q) != Tile::Wall,
        adjacent(a.position, q),
    ensures
        can_move(m, a),
{
    lemma_adjacent_heading(m, a.position, q);
    let d = choose|d: Heading| #[trigger] spec_neighbor_toward(m, a.position, d) == Some(q);
    lemma_some_facing(a.heading, d);
    let f = choose|f: Facing| #[trigger] spec_resolve(a.heading, f) == d;
    assert(spec_look(m, a, f) == m.tile_at(q));
    assert(spec_look(m, a, f) != Tile::Wall);
}

/// How many uniform samples are drawn before the policy falls back to
/// scanning the facings in a fixed order.
pub const SAMPLE_TRIES: usize = 32;

/// The random-avoider controller: it draws facings uniformly with
/// replacement and commits the first whose sensed tile is not a wall.
/// After `SAMPLE_TRIES` rejected samples it scans the four facings in
/// a fixed order, so whenever any facing at all is acceptable a move
/// is committed.
#[derive(Default)]
pub struct DumboController;

impl DumboController {
    /// Drive the agent one accepted move, or leave everything as it
    /// was when every facing is walled off.
    #[verifier::loop_isolation(false)]
    pub fn control_robot(&mut self, m: &mut Maze, a: &mut Agent) -> (moved: bool)
        requires
            old(m).wf(),
            agent_ok(*old(m), *old(a)),
        ensures
            final(m).wf(),
            agent_ok(*final(m), *final(a)),
            moved == can_move(*old(m), *old(a)),
            moved ==> exists|f: Facing|
                #[trigger] spec_look(*old(m), *old(a), f) != Tile::Wall && move_committed(
                    *old(m),
                    *old(a),
                    f,
                    *final(m),
                    *final(a),
                ),
            !moved ==> *final(m) == *old(m) && *final(a) == *old(a),
    {
        let mut rng = fresh_rng();
        let mut tries: usize = 0;
        while tries < SAMPLE_TRIES
            invariant
                *m == *old(m),
                *a == *old(a),
            decreases SAMPLE_TRIES - tries,
        {
            let direction = facing_of(sample_direction(&mut rng));
            match look(m, a, direction) {
                Tile::Wall => {},
                _ => {
                    face(m, a, direction);
                    proof {
                        assert(spec_look(*old(m), *old(a), direction) != Tile::Wall);
                    }
                    return true;
                },
            }
            tries = tries + 1;
        }
        if look(m, a, Facing::Ahead) != Tile::Wall {
            face(m, a, Facing::Ahead);
            true
        } else if look(m, a, Facing::Left) != Tile::Wall {
            face(m, a, Facing::Left);
            true
        } else if look(m, a, Facing::Right) != Tile::Wall {
            face(m, a, Facing::Right);
            true
        } else if look(m, a, Facing::Behind) != Tile::Wall {
            face(m, a, Facing::Behind);
            true
        } else {
            proof {
                assert forall|f: Facing| #[trigger] spec_look(*m, *a, f) == Tile::Wall by {
                    match f {
                        Facing::Ahead => {},
                        Facing::Left => {},
                        Facing::Right => {},
                        Facing::Behind => {},
                    }
                }
            }
            false
        }
    }
}

} // verus!
