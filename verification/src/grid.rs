//! The maze grid: points, tiles, and a rectangular tile grid with a
//! start and a finish, together with the notion of a path through it.

use vstd::prelude::*;

verus! {

/// A grid coordinate; `x` grows to the right, `y` grows downwards.
#[derive(Clone, Copy, PartialEq, Eq, Structural, Debug)]
pub struct Point {
    pub x: usize,
    pub y: usize,
}

/// Classification of one maze cell.  `Visited` marks cells the agent
/// has already occupied; for movement it counts as walkable.
#[derive(Clone, Copy, PartialEq, Eq, Structural, Debug)]
pub enum Tile {
    Wall,
    Passage,
    Visited,
}

/// A rectangular maze: `tiles` holds the grid row-major, and the
/// `start` and `finish` points are the agent's origin and goal.
pub struct Maze {
    pub width: usize,
    pub height: usize,
    pub tiles: Vec<Tile>,
    pub start: Point,
    pub finish: Point,
}

/// Two mazes hold the same grid, endpoints and dimensions.
pub open spec fn same_maze(a: Maze, b: Maze) -> bool {
    &&& a.width == b.width
    &&& a.height == b.height
    &&& a.tiles@ == b.tiles@
    &&& a.start == b.start
    &&& a.finish == b.finish
}

/// Two points are adjacent when they differ by one step along exactly
/// one axis.
pub open spec fn adjacent(a: Point, b: Point) -> bool {
    ||| (a.x == b.x && a.y + 1 == b.y)
    ||| (a.x == b.x && b.y + 1 == a.y)
    ||| (a.y == b.y && a.x + 1 == b.x)
    ||| (a.y == b.y && b.x + 1 == a.x)
}

impl Maze {
    pub open spec fn in_bounds(self, p: Point) -> bool {
        p.x < self.width && p.y < self.height
    }

    /// Row-major index of an in-bounds point.
    pub open spec fn cell_index(self, p: Point) -> int {
        p.y * self.width + p.x
    }

    pub open spec fn tile_at(self, p: Point) -> Tile
        recommends
            self.in_bounds(p),
    {
        self.tiles@[self.cell_index(p)]
    }

    /// Structural well-formedness: the tile vector matches the stated
    /// dimensions and both endpoints lie on the grid.
    pub open spec fn wf(self) -> bool {
        &&& self.tiles@.len() == self.width * self.height
        &&& self.in_bounds(self.start)
        &&& self.in_bounds(self.finish)
    }

    /// What the maze generator is trusted to deliver, checked here
    /// rather than assumed: a well-formed grid whose start and finish
    /// are `Passage` and are joined by a path.
    pub open spec fn generated_ok(self) -> bool {
        &&& self.wf()
        &&& self.tile_at(self.start) == Tile::Passage
        &&& self.tile_at(self.finish) == Tile::Passage
        &&& connected(self)
    }

    pub fn get_width(&self) -> (r: usize)
        ensures
            r == self.width,
    {
        self.width
    }

    pub fn get_height(&self) -> (r: usize)
        ensures
            r == self.height,
    {
        self.height
    }

    pub fn get_start(&self) -> (r: Point)
        ensures
            r == self.start,
    {
        self.start
    }

    pub fn get_finish(&self) -> (r: Point)
        ensures
            r == self.finish,
    {
        self.finish
    }

    /// Cell lookup; out-of-range lookups return `None`, which callers
    /// treat as a wall.
    pub fn get_cell(&self, p: Point) -> (r: Option<Tile>)
        requires
            self.wf(),
        ensures
            r == if self.in_bounds(p) { Some(self.tile_at(p)) } else { None::<Tile> },
    {
        if p.x < self.width && p.y < self.height {
            // reading the length pins width * height below usize::MAX
            let n = self.tiles.len();
            proof {
                lemma_row_major_bounds(p.x as int, p.y as int, self.width as int, self.height as int);
            }
            Some(self.tiles[p.y * self.width + p.x])
        } else {
            None
        }
    }

    /// Overwrite one in-bounds cell; the rest of the maze is untouched.
    pub fn set_cell(&mut self, p: Point, t: Tile)
        requires
            old(self).wf(),
            old(self).in_bounds(p),
        ensures
            final(self).wf(),
            final(self).width == old(self).width,
            final(self).height == old(self).height,
            final(self).start == old(self).start,
            final(self).finish == old(self).finish,
            final(self).tiles@ == old(self).tiles@.update(old(self).cell_index(p), t),
            final(self).tile_at(p) == t,
            forall|q: Point|
                old(self).in_bounds(q) && q != p ==> final(self).tile_at(q) == old(self).tile_at(q),
    {
        let n = self.tiles.len();
        proof {
            lemma_row_major_bounds(p.x as int, p.y as int, self.width as int, self.height as int);
        }
        let i = p.y * self.width + p.x;
        self.tiles.set(i, t);
        proof {
            assert forall|q: Point|
                self.in_bounds(q) && q != p implies self.tile_at(q) == old(self).tile_at(q) by {
                lemma_row_major_bounds(q.x as int, q.y as int, self.width as int, self.height as int);
                if self.cell_index(q) == self.cell_index(p) {
                    lemma_row_major_injective(
                        self.width as int,
                        self.height as int,
                        p.x as int,
                        p.y as int,
                        q.x as int,
                        q.y as int,
                    );
                }
            }
        }
    }

    /// A field-for-field copy of the maze.
    pub fn duplicate(&self) -> (r: Maze)
        ensures
            same_maze(r, *self),
    {
        let mut tiles: Vec<Tile> = Vec::new();
        let mut i: usize = 0;
        while i < self.tiles.len()
            invariant
                i <= self.tiles@.len(),
                tiles@ == self.tiles@.subrange(0, i as int),
            decreases self.tiles@.len() - i,
        {
            tiles.push(self.tiles[i]);
            i = i + 1;
            proof {
                assert(tiles@ =~= self.tiles@.subrange(0, i as int));
            }
        }
        proof {
            assert(tiles@ =~= self.tiles@);
        }
        let r = Maze {
            width: self.width,
            height: self.height,
            tiles,
            start: self.start,
            finish: self.finish,
        };
        r
    }
}

/// A path is a non-empty chain of in-bounds, non-wall cells in which
/// consecutive entries are adjacent.
pub open spec fn is_path(m: Maze, s: Seq<Point>) -> bool {
    &&& s.len() > 0
    &&& forall|i: int|
        0 <= i < s.len() ==> m.in_bounds(#[trigger] s[i]) && m.tile_at(s[i]) != Tile::Wall
    &&& forall|i: int| 0 <= i < s.len() - 1 ==> adjacent(#[trigger] s[i], s[i + 1])
}

/// A point is reachable when some path leads from the start to it.
pub open spec fn reachable(m: Maze, p: Point) -> bool {
    exists|s: Seq<Point>| is_path(m, s) && s[0] == m.start && s[s.len() - 1] == p
}

/// The connectivity guarantee: some path joins start and finish.
pub open spec fn connected(m: Maze) -> bool {
    reachable(m, m.finish)
}

/// Two mazes agree on their frame and on where the walls stand; the
/// non-wall cells may differ between `Passage` and `Visited`.
pub open spec fn same_walls(a: Maze, b: Maze) -> bool {
    &&& a.width == b.width
    &&& a.height == b.height
    &&& a.start == b.start
    &&& a.finish == b.finish
    &&& forall|p: Point|
        a.in_bounds(p) ==> ((#[trigger] a.tile_at(p) == Tile::Wall) <==> (#[trigger] b.tile_at(p)
            == Tile::Wall))
}

/// A path survives any rewrite of the maze that keeps the walls where
/// they are.
pub proof fn lemma_same_walls_path(a: Maze, b: Maze, s: Seq<Point>)
    requires
        same_walls(a, b),
        is_path(a, s),
    ensures
        is_path(b, s),
{
    assert forall|i: int|
        0 <= i < s.len() implies b.in_bounds(#[trigger] s[i]) && b.tile_at(s[i]) != Tile::Wall by {
        assert(a.in_bounds(s[i]) && a.tile_at(s[i]) != Tile::Wall);
    }
}

/// Reachability survives any rewrite of the maze that keeps the walls
/// where they are.
pub proof fn lemma_same_walls_reachable(a: Maze, b: Maze, p: Point)
    requires
        same_walls(a, b),
        reachable(a, p),
    ensures
        reachable(b, p),
{
    let s = choose|s: Seq<Point>| is_path(a, s) && s[0] == a.start && s[s.len() - 1] == p;
    lemma_same_walls_path(a, b, s);
    assert(is_path(b, s) && s[0] == b.start && s[s.len() - 1] == p);
}

/// Connectivity survives any rewrite of the maze that keeps the walls
/// where they are.
pub proof fn lemma_same_walls_connected(a: Maze, b: Maze)
    requires
        same_walls(a, b),
        connected(a),
    ensures
        connected(b),
{
    let s = choose|s: Seq<Point>| is_path(a, s) && s[0] == a.start && s[s.len() - 1] == a.finish;
    lemma_same_walls_path(a, b, s);
    assert(is_path(b, s) && s[0] == b.start && s[s.len() - 1] == b.finish);
}

/// A maze a run can live in: well formed, both endpoints walkable,
/// and connected.  Fresh mazes satisfy the stronger `generated_ok`;
/// during a run the agent turns `Passage` cells `Visited`, which
/// keeps exactly this much.
pub open spec fn explorable(m: Maze) -> bool {
    &&& m.wf()
    &&& m.tile_at(m.start) != Tile::Wall
    &&& m.tile_at(m.finish) != Tile::Wall
    &&& connected(m)
}

/// Rewriting one walkable cell to `Visited` moves no wall.
pub proof fn lemma_visit_same_walls(m0: Maze, m1: Maze, p: Point)
    requires
        m0.wf(),
        m0.in_bounds(p),
        m0.tile_at(p) != Tile::Wall,
        m1.width == m0.width,
        m1.height == m0.height,
        m1.start == m0.start,
        m1.finish == m0.finish,
        m1.tiles@ == m0.tiles@.update(m0.cell_index(p), Tile::Visited),
    ensures
        same_walls(m0, m1),
{
    assert forall|q: Point|
        m0.in_bounds(q) implies ((#[trigger] m0.tile_at(q) == Tile::Wall) <==> (
    #[trigger] m1.tile_at(q) == Tile::Wall)) by {
        lemma_row_major_bounds(q.x as int, q.y as int, m0.width as int, m0.height as int);
        lemma_row_major_bounds(p.x as int, p.y as int, m0.width as int, m0.height as int);
        if m0.cell_index(q) == m0.cell_index(p) {
            lemma_row_major_injective(
                m0.width as int,
                m0.height as int,
                p.x as int,
                p.y as int,
                q.x as int,
                q.y as int,
            );
        }
    }
}

pub proof fn lemma_row_major_bounds(x: int, y: int, w: int, h: int)
    requires
        0 <= x < w,
        0 <= y < h,
    ensures
        0 <= y * w + x < w * h,
{
    assert(y * w + x < w * h) by (nonlinear_arith)
        requires
            0 <= x < w,
            0 <= y < h,
    ;
    assert(0 <= y * w) by (nonlinear_arith)
        requires
            0 <= y,
            0 < w,
    ;
}

pub proof fn lemma_row_major_injective(w: int, h: int, x1: int, y1: int, x2: int, y2: int)
    requires
        0 <= x1 < w,
        0 <= y1 < h,
        0 <= x2 < w,
        0 <= y2 < h,
        y1 * w + x1 == y2 * w + x2,
    ensures
        x1 == x2,
        y1 == y2,
{
    assert(y1 == y2 && x1 == x2) by (nonlinear_arith)
        requires
            0 <= x1 < w,
            0 <= y1 < h,
            0 <= x2 < w,
            0 <= y2 < h,
            y1 * w + x1 == y2 * w + x2,
    ;
}

/// Extending a path by one adjacent, walkable cell keeps it a path.
pub proof fn lemma_path_extend(m: Maze, s: Seq<Point>, q: Point)
    requires
        is_path(m, s),
        m.in_bounds(q),
        m.tile_at(q) != Tile::Wall,
        adjacent(s[s.len() - 1], q),
    ensures
        is_path(m, s.push(q)),
        s.push(q)[0] == s[0],
        s.push(q)[s.push(q).len() - 1] == q,
{
    let t = s.push(q);
    assert forall|i: int| 0 <= i < t.len() - 1 implies adjacent(#[trigger] t[i], t[i + 1]) by {
        if i < s.len() - 1 {
            assert(adjacent(s[i], s[i + 1]));
        } else {
            assert(t[i] == s[s.len() - 1]);
        }
    }
}

/// A point reachable from the start stays reachable after stepping to
/// an adjacent walkable cell.
pub proof fn lemma_reachable_step(m: Maze, p: Point, q: Point)
    requires
        reachable(m, p),
        m.in_bounds(q),
        m.tile_at(q) != Tile::Wall,
        adjacent(p, q),
    ensures
        reachable(m, q),
{
    let s = choose|s: Seq<Point>| is_path(m, s) && s[0] == m.start && s[s.len() - 1] == p;
    lemma_path_extend(m, s, q);
    let t = s.push(q);
    assert(is_path(m, t) && t[0] == m.start && t[t.len() - 1] == q);
}

/// The start cell of any maze with a path through it is itself
/// reachable.
pub proof fn lemma_start_reachable(m: Maze)
    requires
        m.in_bounds(m.start),
        m.tile_at(m.start) != Tile::Wall,
    ensures
        reachable(m, m.start),
{
    let s = seq![m.start];
    assert(is_path(m, s));
    assert(s[0] == m.start && s[s.len() - 1] == m.start);
}

} // verus!
