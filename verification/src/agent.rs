//! The navigating agent: absolute headings, facings relative to the
//! current heading, sensing, and the committed move that steps onto a
//! neighbouring cell and marks the vacated cell `Visited`.

use vstd::prelude::*;

use crate::grid::{adjacent, Maze, Point, Tile};

verus! {

/// Absolute compass orientation in maze space; `North` points toward
/// smaller `y`, `South` toward larger `y`.
#[derive(Clone, Copy, PartialEq, Eq, Structural, Debug)]
pub enum Heading {
    North,
    East,
    South,
    West,
}

/// A direction relative to the agent's current heading.
#[derive(Clone, Copy, PartialEq, Eq, Structural, Debug)]
pub enum Facing {
    Ahead,
    Left,
    Right,
    Behind,
}

/// The absolute heading reached by turning `f` away from `h`.
pub open spec fn spec_resolve(h: Heading, f: Facing) -> Heading {
    match f {
        Facing::Ahead => h,
        Facing::Left => match h {
            Heading::North => Heading::West,
            Heading::West => Heading::South,
            Heading::South => Heading::East,
            Heading::East => Heading::North,
        },
        Facing::Right => match h {
            Heading::North => Heading::East,
            Heading::East => Heading::South,
            Heading::South => Heading::West,
            Heading::West => Heading::North,
        },
        Facing::Behind => match h {
            Heading::North => Heading::South,
            Heading::South => Heading::North,
            Heading::East => Heading::West,
            Heading::West => Heading::East,
        },
    }
}

pub fn resolve(h: Heading, f: Facing) -> (r: Heading)
    ensures
        r == spec_resolve(h, f),
{
    match f {
        Facing::Ahead => h,
        Facing::Left => match h {
            Heading::North => Heading::West,
            Heading::West => Heading::South,
            Heading::South => Heading::East,
            Heading::East => Heading::North,
        },
        Facing::Right => match h {
            Heading::North => Heading::East,
            Heading::East => Heading::South,
            Heading::South => Heading::West,
            Heading::West => Heading::North,
        },
        Facing::Behind => match h {
            Heading::North => Heading::South,
            Heading::South => Heading::North,
            Heading::East => Heading::West,
            Heading::West => Heading::East,
        },
    }
}

/// The point one step toward `h` from `p`, or `None` at the grid edge.
pub open spec fn spec_neighbor_toward(m: Maze, p: Point, h: Heading) -> Option<Point> {
    match h {
        Heading::North => if p.y >= 1 {
            Some(Point { x: p.x, y: (p.y - 1) as usize })
        } else {
            None
        },
        Heading::East => if p.x + 1 < m.width {
            Some(Point { x: (p.x + 1) as usize, y: p.y })
        } else {
            None
        },
        Heading::South => if p.y + 1 < m.height {
            Some(Point { x: p.x, y: (p.y + 1) as usize })
        } else {
            None
        },
        Heading::West => if p.x >= 1 {
            Some(Point { x: (p.x - 1) as usize, y: p.y })
        } else {
            None
        },
    }
}

pub fn neighbor_toward(m: &Maze, p: Point, h: Heading) -> (r: Option<Point>)
    requires
        m.in_bounds(p),
    ensures
        r == spec_neighbor_toward(*m, p, h),
        r matches Some(q) ==> m.in_bounds(q) && adjacent(p, q),
{
    match h {
        Heading::North => if p.y >= 1 {
            Some(Point { x: p.x, y: p.y - 1 })
        } else {
            None
        },
        Heading::East => if p.x + 1 < m.width {
            Some(Point { x: p.x + 1, y: p.y })
        } else {
            None
        },
        Heading::South => if p.y + 1 < m.height {
            Some(Point { x: p.x, y: p.y + 1 })
        } else {
            None
        },
        Heading::West => if p.x >= 1 {
            Some(Point { x: p.x - 1, y: p.y })
        } else {
            None
        },
    }
}

/// The exploring agent: its cell, the way it faces, and the cell it
/// must reach.
#[derive(Clone, Copy, PartialEq, Eq, Structural, Debug)]
pub struct Agent {
    pub position: Point,
    pub heading: Heading,
    pub goal: Point,
}

/// The agent's standing invariant against the maze it explores: it
/// sits on a walkable in-bounds cell.
pub open spec fn agent_ok(m: Maze, a: Agent) -> bool {
    &&& m.in_bounds(a.position)
    &&& m.tile_at(a.position) != Tile::Wall
}

impl Agent {
    pub fn new(position: Point, heading: Heading, goal: Point) -> (r: Agent)
        ensures
            r == (Agent { position, heading, goal }),
    {
        Agent { position, heading, goal }
    }
}

/// What the agent senses one step toward facing `f`: the tile there,
/// with anything beyond the grid edge reported as `Wall`.
pub open spec fn spec_look(m: Maze, a: Agent, f: Facing) -> Tile {
    match spec_neighbor_toward(m, a.position, spec_resolve(a.heading, f)) {
        Some(q) => m.tile_at(q),
        None => Tile::Wall,
    }
}

pub fn look(m: &Maze, a: &Agent, f: Facing) -> (t: Tile)
    requires
        m.wf(),
        m.in_bounds(a.position),
    ensures
        t == spec_look(*m, *a, f),
{
    let h = resolve(a.heading, f);
    match neighbor_toward(m, a.position, h) {
        Some(q) => match m.get_cell(q) {
            Some(t) => t,
            None => Tile::Wall,
        },
        None => Tile::Wall,
    }
}

/// From any current heading, some facing turns the agent toward any
/// wanted absolute heading.
pub proof fn lemma_some_facing(h: Heading, d: Heading)
    ensures
        exists|f: Facing| #[trigger] spec_resolve(h, f) == d,
{
    if spec_resolve(h, Facing::Ahead) == d {
    } else if spec_resolve(h, Facing::Left) == d {
    } else if spec_resolve(h, Facing::Right) == d {
    } else {
        assert(spec_resolve(h, Facing::Behind) == d);
    }
}

/// Any in-bounds neighbour of an in-bounds point lies one step toward
/// some heading.
pub proof fn lemma_adjacent_heading(m: Maze, p: Point, q: Point)
    requires
        m.in_bounds(p),
        m.in_bounds(q),
        adjacent(p, q),
    ensures
        exists|d: Heading| #[trigger] spec_neighbor_toward(m, p, d) == Some(q),
{
    if p.x == q.x && q.y + 1 == p.y {
        assert(spec_neighbor_toward(m, p, Heading::North) == Some(q));
    } else if p.y == q.y && p.x + 1 == q.x {
        assert(spec_neighbor_toward(m, p, Heading::East) == Some(q));
    } else if p.x == q.x && p.y + 1 == q.y {
        assert(spec_neighbor_toward(m, p, Heading::South) == Some(q));
    } else {
        assert(spec_neighbor_toward(m, p, Heading::West) == Some(q));
    }
}

/// How one committed move relates the maze and agent before and after:
/// the agent turns to the resolved heading, steps onto the walkable
/// neighbouring cell it faced, and the vacated cell is `Visited`.
pub open spec fn move_committed(m0: Maze, a0: Agent, f: Facing, m1: Maze, a1: Agent) -> bool {
    &&& spec_look(m0, a0, f) != Tile::Wall
    &&& a1.heading == spec_resolve(a0.heading, f)
    &&& spec_neighbor_toward(m0, a0.position, a1.heading) == Some(a1.position)
    &&& a1.goal == a0.goal
    &&& m1.width == m0.width
    &&& m1.height == m0.height
    &&& m1.start == m0.start
    &&& m1.finish == m0.finish
    &&& m1.tiles@ == m0.tiles@.update(m0.cell_index(a0.position), Tile::Visited)
}

/// Commit the move the controller chose: turn, step, and mark the
/// vacated cell.
pub fn face(m: &mut Maze, a: &mut Agent, f: Facing)
    requires
        old(m).wf(),
        agent_ok(*old(m), *old(a)),
        spec_look(*old(m), *old(a), f) != Tile::Wall,
    ensures
        final(m).wf(),
        move_committed(*old(m), *old(a), f, *final(m), *final(a)),
        agent_ok(*final(m), *final(a)),
        adjacent(old(a).position, final(a).position),
{
    let h = resolve(a.heading, f);
    let q = neighbor_toward(m, a.position, h).unwrap();
    let vacated = a.position;
    m.set_cell(vacated, Tile::Visited);
    a.position = q;
    a.heading = h;
    proof {
        assert(q != vacated);
        assert(m.tile_at(q) == old(m).tile_at(q));
    }
}

} // verus!
