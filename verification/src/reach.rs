//! Deciding the connectivity guarantee: a verified flood fill that
//! reports exactly whether a path joins the maze's start to its
//! finish, and the checked constructor that admits only mazes with
//! Passage endpoints joined by such a path.

use vstd::prelude::*;

use crate::grid::{
    adjacent, connected, is_path, lemma_reachable_step, lemma_row_major_bounds,
    lemma_row_major_injective, lemma_start_reachable, reachable, same_maze, Maze, Point, Tile,
};

verus! {

/// Number of cells the search has not marked yet.
pub open spec fn unmarked_count(v: Seq<bool>) -> nat
    decreases v.len(),
{
    if v.len() == 0 {
        0
    } else {
        unmarked_count(v.drop_last()) + (if v.last() {
            0nat
        } else {
            1nat
        })
    }
}

proof fn lemma_unmarked_count_update(v: Seq<bool>, i: int)
    requires
        0 <= i < v.len(),
        !v[i],
    ensures
        unmarked_count(v.update(i, true)) < unmarked_count(v),
    decreases v.len(),
{
    let w = v.update(i, true);
    if i == v.len() - 1 {
        assert(w.drop_last() =~= v.drop_last());
    } else {
        assert(w.drop_last() =~= v.drop_last().update(i, true));
        lemma_unmarked_count_update(v.drop_last(), i);
        assert(w.last() == v.last());
    }
}

/// Every marked cell is reachable from the start.
spec fn marks_reachable(m: Maze, v: Seq<bool>) -> bool {
    forall|p: Point| m.in_bounds(p) && #[trigger] v[m.cell_index(p)] ==> reachable(m, p)
}

/// Every stacked point is an in-bounds, walkable, marked, reachable
/// cell.
spec fn stack_ok(m: Maze, v: Seq<bool>, stk: Seq<Point>) -> bool {
    forall|j: int|
        0 <= j < stk.len() ==> {
            let p = #[trigger] stk[j];
            &&& m.in_bounds(p)
            &&& m.tile_at(p) != Tile::Wall
            &&& v[m.cell_index(p)]
            &&& reachable(m, p)
        }
}

/// Marked cells off the stack already have all their walkable
/// neighbours marked, except possibly the point `exempt`.
spec fn frontier_closed_except(m: Maze, v: Seq<bool>, stk: Seq<Point>, exempt: Point) -> bool {
    forall|a: Point, b: Point|
        m.in_bounds(a) && #[trigger] v[m.cell_index(a)] && !stk.contains(a) && a != exempt
            && m.in_bounds(b) && adjacent(a, b) && m.tile_at(b) != Tile::Wall
            ==> #[trigger] v[m.cell_index(b)]
}

/// Marked cells off the stack already have all their walkable
/// neighbours marked.
spec fn frontier_closed(m: Maze, v: Seq<bool>, stk: Seq<Point>) -> bool {
    forall|a: Point, b: Point|
        m.in_bounds(a) && #[trigger] v[m.cell_index(a)] && !stk.contains(a)
            && m.in_bounds(b) && adjacent(a, b) && m.tile_at(b) != Tile::Wall
            ==> #[trigger] v[m.cell_index(b)]
}

/// The four candidate neighbours of a point, indexed 0 to 3: up,
/// right, down, left.  `None` where the grid edge cuts the direction
/// off.
spec fn dir_neighbor(m: Maze, p: Point, k: int) -> Option<Point> {
    if k == 0 {
        if p.y >= 1 {
            Some(Point { x: p.x, y: (p.y - 1) as usize })
        } else {
            None
        }
    } else if k == 1 {
        if p.x + 1 < m.width {
            Some(Point { x: (p.x + 1) as usize, y: p.y })
        } else {
            None
        }
    } else if k == 2 {
        if p.y + 1 < m.height {
            Some(Point { x: p.x, y: (p.y + 1) as usize })
        } else {
            None
        }
    } else {
        if p.x >= 1 {
            Some(Point { x: (p.x - 1) as usize, y: p.y })
        } else {
            None
        }
    }
}

/// Direction `k` from `p` has been dealt with: its walkable target,
/// if any, is marked.
spec fn dir_done(m: Maze, v: Seq<bool>, p: Point, k: int) -> bool {
    match dir_neighbor(m, p, k) {
        Some(q) => m.tile_at(q) != Tile::Wall ==> v[m.cell_index(q)],
        None => true,
    }
}

/// Any in-bounds neighbour of an in-bounds point appears among its
/// four direction candidates.
proof fn lemma_adjacent_is_dir(m: Maze, p: Point, q: Point)
    requires
        m.in_bounds(p),
        m.in_bounds(q),
        adjacent(p, q),
    ensures
        exists|k: int| 0 <= k < 4 && #[trigger] dir_neighbor(m, p, k) == Some(q),
{
    if p.x == q.x && q.y + 1 == p.y {
        assert(dir_neighbor(m, p, 0) == Some(q));
    } else if p.y == q.y && p.x + 1 == q.x {
        assert(dir_neighbor(m, p, 1) == Some(q));
    } else if p.x == q.x && p.y + 1 == q.y {
        assert(dir_neighbor(m, p, 2) == Some(q));
    } else {
        assert(dir_neighbor(m, p, 3) == Some(q));
    }
}

/// Once the frontier is empty, every cell on a path out of a marked
/// start is itself marked.
proof fn lemma_path_marked(m: Maze, v: Seq<bool>, s: Seq<Point>, i: int)
    requires
        m.wf(),
        frontier_closed(m, v, Seq::<Point>::empty()),
        is_path(m, s),
        s[0] == m.start,
        v[m.cell_index(m.start)],
        0 <= i < s.len(),
    ensures
        v[m.cell_index(s[i])],
    decreases i,
{
    if i > 0 {
        lemma_path_marked(m, v, s, i - 1);
        assert(adjacent(s[i - 1], s[i]));
        assert(!Seq::<Point>::empty().contains(s[i - 1]));
        assert(v[m.cell_index(s[i])]);
    }
}

/// Flood fill from the start, deciding the connectivity guarantee.
#[verifier::loop_isolation(false)]
#[verifier::rlimit(80)]
pub fn check_connected(m: &Maze) -> (r: bool)
    requires
        m.wf(),
    ensures
        r == connected(*m),
{
    let w = m.width;
    let h = m.height;
    let n = m.tiles.len();
    let start = m.start;
    let finish = m.finish;
    proof {
        lemma_row_major_bounds(start.x as int, start.y as int, w as int, h as int);
        lemma_row_major_bounds(finish.x as int, finish.y as int, w as int, h as int);
    }
    match m.get_cell(start) {
        Some(Tile::Wall) | None => {
            proof {
                assert(!connected(*m)) by {
                    if connected(*m) {
                        let s = choose|s: Seq<Point>|
                            is_path(*m, s) && s[0] == m.start && s[s.len() - 1] == m.finish;
                        assert(m.tile_at(s[0]) != Tile::Wall);
                    }
                }
            }
            return false;
        },
        _ => {},
    }

    let mut visited: Vec<bool> = Vec::new();
    let mut i: usize = 0;
    while i < n
        invariant
            i <= n,
            visited@.len() == i,
            forall|j: int| 0 <= j < i ==> !visited@[j],
        decreases n - i,
    {
        visited.push(false);
        i = i + 1;
    }

    let si = start.y * w + start.x;
    visited.set(si, true);
    let mut stack: Vec<Point> = Vec::new();
    stack.push(start);
    proof {
        lemma_start_reachable(*m);
        assert forall|p: Point|
            m.in_bounds(p) && #[trigger] visited@[m.cell_index(p)] implies reachable(*m, p) by {
            lemma_row_major_bounds(p.x as int, p.y as int, w as int, h as int);
            if m.cell_index(p) == si {
                lemma_row_major_injective(
                    w as int,
                    h as int,
                    start.x as int,
                    start.y as int,
                    p.x as int,
                    p.y as int,
                );
            }
        }
        assert(stack@[0] == start);
        assert(stack@.contains(start));
        assert forall|a: Point, b: Point|
            m.in_bounds(a) && #[trigger] visited@[m.cell_index(a)] && !stack@.contains(a)
                && m.in_bounds(b) && adjacent(a, b) && m.tile_at(b) != Tile::Wall
                implies #[trigger] visited@[m.cell_index(b)] by {
            lemma_row_major_bounds(a.x as int, a.y as int, w as int, h as int);
            if m.cell_index(a) == si {
                lemma_row_major_injective(
                    w as int,
                    h as int,
                    start.x as int,
                    start.y as int,
                    a.x as int,
                    a.y as int,
                );
                assert(a == start);
            }
            assert(false);
        }
    }

    while stack.len() > 0
        invariant
            visited@.len() == w * h,
            marks_reachable(*m, visited@),
            stack_ok(*m, visited@, stack@),
            frontier_closed(*m, visited@, stack@),
            visited@[m.cell_index(m.start)],
        decreases unmarked_count(visited@), stack@.len(),
    {
        let ghost v_pre = visited@;
        let ghost stk_pre = stack@;
        let p = stack.pop().unwrap();
        proof {
            assert(p == stk_pre[stk_pre.len() - 1]);
            assert(stk_pre.contains(p));
            assert forall|a: Point, b: Point|
                m.in_bounds(a) && #[trigger] visited@[m.cell_index(a)] && !stack@.contains(a)
                    && a != p && m.in_bounds(b) && adjacent(a, b) && m.tile_at(b) != Tile::Wall
                    implies #[trigger] visited@[m.cell_index(b)] by {
                if stk_pre.contains(a) {
                    let j = choose|j: int| 0 <= j < stk_pre.len() && stk_pre[j] == a;
                    assert(j == stk_pre.len() - 1 || stack@[j] == a);
                }
            }
        }
        let ghost c0 = unmarked_count(visited@);
        let ghost l0 = stack@.len();

        let mut k: usize = 0;
        while k < 4
            invariant
                k <= 4,
                visited@.len() == w * h,
                marks_reachable(*m, visited@),
                stack_ok(*m, visited@, stack@),
                frontier_closed_except(*m, visited@, stack@, p),
                visited@[m.cell_index(m.start)],
                m.in_bounds(p),
                m.tile_at(p) != Tile::Wall,
                reachable(*m, p),
                visited@[m.cell_index(p)],
                forall|kk: int| 0 <= kk < k ==> dir_done(*m, visited@, p, kk),
                unmarked_count(visited@) <= c0,
                unmarked_count(visited@) + stack@.len() <= c0 + l0,
            decreases 4 - k,
        {
            let q_opt: Option<Point> = if k == 0 {
                if p.y >= 1 {
                    Some(Point { x: p.x, y: p.y - 1 })
                } else {
                    None
                }
            } else if k == 1 {
                if p.x + 1 < w {
                    Some(Point { x: p.x + 1, y: p.y })
                } else {
                    None
                }
            } else if k == 2 {
                if p.y + 1 < h {
                    Some(Point { x: p.x, y: p.y + 1 })
                } else {
                    None
                }
            } else {
                if p.x >= 1 {
                    Some(Point { x: p.x - 1, y: p.y })
                } else {
                    None
                }
            };
            proof {
                assert(q_opt == dir_neighbor(*m, p, k as int));
            }
            match q_opt {
                None => {},
                Some(q) => {
                    proof {
                        assert(m.in_bounds(q));
                        assert(adjacent(p, q));
                        lemma_row_major_bounds(q.x as int, q.y as int, w as int, h as int);
                    }
                    let tile_opt = m.get_cell(q);
                    let walkable = match tile_opt {
                        Some(Tile::Wall) | None => false,
                        _ => true,
                    };
                    if walkable {
                        let qi = q.y * w + q.x;
                        if !visited[qi] {
                            let ghost v_old = visited@;
                            let ghost stk_old = stack@;
                            proof {
                                lemma_reachable_step(*m, p, q);
                            }
                            visited.set(qi, true);
                            stack.push(q);
                            proof {
                                lemma_unmarked_count_update(v_old, qi as int);
                                lemma_row_major_bounds(p.x as int, p.y as int, w as int, h as int);
                                lemma_row_major_bounds(
                                    start.x as int,
                                    start.y as int,
                                    w as int,
                                    h as int,
                                );
                                assert(visited@[m.cell_index(p)]);
                                assert(visited@[m.cell_index(m.start)]);
                                assert forall|j: int|
                                    0 <= j < stack@.len() implies {
                                    let pp = #[trigger] stack@[j];
                                    &&& m.in_bounds(pp)
                                    &&& m.tile_at(pp) != Tile::Wall
                                    &&& visited@[m.cell_index(pp)]
                                    &&& reachable(*m, pp)
                                } by {
                                    if j < stk_old.len() {
                                        let pp = stk_old[j];
                                        lemma_row_major_bounds(
                                            pp.x as int,
                                            pp.y as int,
                                            w as int,
                                            h as int,
                                        );
                                        assert(v_old[m.cell_index(pp)]);
                                    } else {
                                        assert(stack@[j] == q);
                                    }
                                }
                                assert forall|kk: int|
                                    0 <= kk < k implies dir_done(*m, visited@, p, kk) by {
                                    assert(dir_done(*m, v_old, p, kk));
                                    match dir_neighbor(*m, p, kk) {
                                        Some(qq) => {
                                            lemma_row_major_bounds(
                                                qq.x as int,
                                                qq.y as int,
                                                w as int,
                                                h as int,
                                            );
                                            if m.tile_at(qq) != Tile::Wall {
                                                assert(v_old[m.cell_index(qq)]);
                                            }
                                        },
                                        None => {},
                                    }
                                }
                                assert(visited@[m.cell_index(q)]);
                                assert(dir_done(*m, visited@, p, k as int));
                                assert forall|a: Point|
                                    m.in_bounds(a) && #[trigger] visited@[m.cell_index(a)]
                                        implies reachable(*m, a) by {
                                    lemma_row_major_bounds(a.x as int, a.y as int, w as int, h as int);
                                    if m.cell_index(a) == qi {
                                        lemma_row_major_injective(
                                            w as int,
                                            h as int,
                                            q.x as int,
                                            q.y as int,
                                            a.x as int,
                                            a.y as int,
                                        );
                                    }
                                }
                                assert forall|a: Point, b: Point|
                                    m.in_bounds(a) && #[trigger] visited@[m.cell_index(a)]
                                        && !stack@.contains(a) && a != p && m.in_bounds(b)
                                        && adjacent(a, b) && m.tile_at(b) != Tile::Wall
                                        implies #[trigger] visited@[m.cell_index(b)] by {
                                    lemma_row_major_bounds(a.x as int, a.y as int, w as int, h as int);
                                    if stk_old.contains(a) {
                                        let j = choose|j: int|
                                            0 <= j < stk_old.len() && stk_old[j] == a;
                                        assert(stack@[j] == a);
                                        assert(stack@.contains(a));
                                    }
                                    assert(!stk_old.contains(a));
                                    if m.cell_index(a) == qi {
                                        lemma_row_major_injective(
                                            w as int,
                                            h as int,
                                            q.x as int,
                                            q.y as int,
                                            a.x as int,
                                            a.y as int,
                                        );
                                        assert(stack@[stack@.len() - 1] == q);
                                        assert(stack@.contains(q));
                                        assert(false);
                                    } else {
                                        assert(v_old[m.cell_index(a)]);
                                        lemma_row_major_bounds(
                                            b.x as int,
                                            b.y as int,
                                            w as int,
                                            h as int,
                                        );
                                        assert(v_old[m.cell_index(b)]);
                                    }
                                }
                            }
                        } else {
                            proof {
                                assert(visited@[m.cell_index(q)]);
                            }
                        }
                    }
                },
            }
            k = k + 1;
        }
        proof {
            assert forall|a: Point, b: Point|
                m.in_bounds(a) && #[trigger] visited@[m.cell_index(a)] && !stack@.contains(a)
                    && m.in_bounds(b) && adjacent(a, b) && m.tile_at(b) != Tile::Wall
                    implies #[trigger] visited@[m.cell_index(b)] by {
                if a == p {
                    lemma_adjacent_is_dir(*m, p, b);
                    let kk = choose|kk: int| 0 <= kk < 4 && #[trigger] dir_neighbor(*m, p, kk) == Some(b);
                    assert(dir_done(*m, visited@, p, kk));
                }
            }
        }
    }

    let fi = finish.y * w + finish.x;
    proof {
        assert(fi == m.cell_index(m.finish));
        assert(stack@ =~= Seq::<Point>::empty());
    }
    if visited[fi] {
        proof {
            assert(visited@[m.cell_index(m.finish)]);
            assert(reachable(*m, m.finish));
        }
        true
    } else {
        proof {
            assert(!connected(*m)) by {
                if connected(*m) {
                    let s = choose|s: Seq<Point>|
                        is_path(*m, s) && s[0] == m.start && s[s.len() - 1] == m.finish;
                    lemma_path_marked(*m, visited@, s, s.len() - 1);
                    assert(visited@[m.cell_index(m.finish)]);
                }
            }
        }
        false
    }
}

impl Maze {
    /// Assemble a maze from raw parts, admitting it only when it is
    /// well formed, its start and finish are `Passage`, and the two
    /// are joined by a path.
    pub fn from_parts(width: usize, height: usize, tiles: Vec<Tile>, start: Point, finish: Point) -> (r:
        Option<Maze>)
        ensures
            ({
                let m0 = (Maze { width, height, tiles, start, finish });
                match r {
                    Some(m) => same_maze(m, m0) && m0.generated_ok() && m.generated_ok(),
                    None => !m0.generated_ok(),
                }
            }),
    {
        match width.checked_mul(height) {
            None => None,
            Some(n) => {
                if tiles.len() != n {
                    return None;
                }
                if !(start.x < width && start.y < height && finish.x < width && finish.y < height) {
                    return None;
                }
                let m = Maze { width, height, tiles, start, finish };
                let start_passage = match m.get_cell(start) {
                    Some(Tile::Passage) => true,
                    _ => false,
                };
                let finish_passage = match m.get_cell(finish) {
                    Some(Tile::Passage) => true,
                    _ => false,
                };
                if !start_passage || !finish_passage {
                    return None;
                }
                if check_connected(&m) {
                    Some(m)
                } else {
                    None
                }
            },
        }
    }
}

/// The connectivity guarantee of an admitted maze, stated on its own:
/// start and finish are Passage tiles and a path joins them.
pub proof fn lemma_admitted_maze_connected(m: Maze)
    requires
        m.generated_ok(),
    ensures
        m.tile_at(m.start) == Tile::Passage,
        m.tile_at(m.finish) == Tile::Passage,
        exists|s: Seq<Point>| is_path(m, s) && s[0] == m.start && s[s.len() - 1] == m.finish,
{
}

} // verus!
