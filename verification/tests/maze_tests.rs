use maze_sim::agent::{resolve, Agent, Facing, Heading};
use maze_sim::grid::{Maze, Point, Tile};
use maze_sim::reach::check_connected;

fn grid_of(width: usize, height: usize, passages: &[(usize, usize)]) -> Vec<Tile> {
    let mut tiles = vec![Tile::Wall; width * height];
    for &(x, y) in passages {
        tiles[y * width + x] = Tile::Passage;
    }
    tiles
}

fn corridor() -> Maze {
    let tiles = grid_of(5, 5, &[(1, 1), (2, 1), (3, 1)]);
    Maze::from_parts(5, 5, tiles, Point { x: 1, y: 1 }, Point { x: 3, y: 1 })
        .expect("the corridor maze is admissible")
}

#[test]
fn admits_connected_corridor() {
    let m = corridor();
    assert_eq!(m.get_width(), 5);
    assert_eq!(m.get_height(), 5);
    assert_eq!(m.get_start(), Point { x: 1, y: 1 });
    assert_eq!(m.get_finish(), Point { x: 3, y: 1 });
    assert_eq!(m.get_cell(Point { x: 2, y: 1 }), Some(Tile::Passage));
    assert_eq!(m.get_cell(Point { x: 0, y: 0 }), Some(Tile::Wall));
}

#[test]
fn rejects_wrong_tile_count() {
    let tiles = vec![Tile::Passage; 24];
    assert!(Maze::from_parts(5, 5, tiles, Point { x: 1, y: 1 }, Point { x: 3, y: 1 }).is_none());
}

#[test]
fn rejects_out_of_bounds_endpoint() {
    let tiles = vec![Tile::Passage; 25];
    assert!(Maze::from_parts(5, 5, tiles, Point { x: 5, y: 1 }, Point { x: 3, y: 1 }).is_none());
}

#[test]
fn rejects_wall_start() {
    let tiles = grid_of(5, 5, &[(2, 1), (3, 1)]);
    assert!(Maze::from_parts(5, 5, tiles, Point { x: 1, y: 1 }, Point { x: 3, y: 1 }).is_none());
}

#[test]
fn rejects_disconnected_endpoints() {
    // two passage islands separated by a wall column
    let tiles = grid_of(5, 5, &[(1, 1), (3, 1)]);
    assert!(Maze::from_parts(5, 5, tiles, Point { x: 1, y: 1 }, Point { x: 3, y: 1 }).is_none());
}

#[test]
fn rejects_visited_start() {
    let mut tiles = grid_of(5, 5, &[(1, 1), (2, 1), (3, 1)]);
    tiles[1 * 5 + 1] = Tile::Visited;
    assert!(Maze::from_parts(5, 5, tiles, Point { x: 1, y: 1 }, Point { x: 3, y: 1 }).is_none());
}

#[test]
fn rejects_empty_grid() {
    assert!(
        Maze::from_parts(0, 0, Vec::new(), Point { x: 0, y: 0 }, Point { x: 0, y: 0 }).is_none()
    );
}

#[test]
fn admits_single_cell_maze() {
    let tiles = grid_of(1, 1, &[(0, 0)]);
    let m = Maze::from_parts(1, 1, tiles, Point { x: 0, y: 0 }, Point { x: 0, y: 0 })
        .expect("one passage cell is connected to itself");
    assert_eq!(m.get_cell(Point { x: 0, y: 0 }), Some(Tile::Passage));
}

#[test]
fn connectivity_check_follows_the_walls() {
    let open = Maze {
        width: 3,
        height: 1,
        tiles: vec![Tile::Passage, Tile::Visited, Tile::Passage],
        start: Point { x: 0, y: 0 },
        finish: Point { x: 2, y: 0 },
    };
    assert!(check_connected(&open));
    let blocked = Maze {
        width: 3,
        height: 1,
        tiles: vec![Tile::Passage, Tile::Wall, Tile::Passage],
        start: Point { x: 0, y: 0 },
        finish: Point { x: 2, y: 0 },
    };
    assert!(!check_connected(&blocked));
}

#[test]
fn out_of_range_lookup_is_empty() {
    let m = corridor();
    assert_eq!(m.get_cell(Point { x: 9, y: 9 }), None);
}

#[test]
fn resolve_turns_relative_to_heading() {
    assert_eq!(resolve(Heading::East, Facing::Ahead), Heading::East);
    assert_eq!(resolve(Heading::East, Facing::Left), Heading::North);
    assert_eq!(resolve(Heading::East, Facing::Right), Heading::South);
    assert_eq!(resolve(Heading::East, Facing::Behind), Heading::West);
    assert_eq!(resolve(Heading::North, Facing::Left), Heading::West);
    assert_eq!(resolve(Heading::South, Facing::Right), Heading::West);
    assert_eq!(resolve(Heading::West, Facing::Behind), Heading::East);
}

#[test]
fn look_reports_walls_and_edges() {
    let m = corridor();
    let a = Agent::new(Point { x: 1, y: 1 }, Heading::East, Point { x: 3, y: 1 });
    assert_eq!(maze_sim::agent::look(&m, &a, Facing::Ahead), Tile::Passage);
    assert_eq!(maze_sim::agent::look(&m, &a, Facing::Left), Tile::Wall);
    assert_eq!(maze_sim::agent::look(&m, &a, Facing::Right), Tile::Wall);
    assert_eq!(maze_sim::agent::look(&m, &a, Facing::Behind), Tile::Wall);
    // at the western edge, the world beyond the grid reads as wall
    let edge = Agent::new(Point { x: 0, y: 0 }, Heading::West, Point { x: 3, y: 1 });
    let open_row = Maze {
        width: 2,
        height: 1,
        tiles: vec![Tile::Passage, Tile::Passage],
        start: Point { x: 0, y: 0 },
        finish: Point { x: 1, y: 0 },
    };
    assert_eq!(maze_sim::agent::look(&open_row, &edge, Facing::Ahead), Tile::Wall);
}

#[test]
fn face_steps_and_marks_the_vacated_cell() {
    let mut m = corridor();
    let mut a = Agent::new(Point { x: 1, y: 1 }, Heading::East, Point { x: 3, y: 1 });
    maze_sim::agent::face(&mut m, &mut a, Facing::Ahead);
    assert_eq!(a.position, Point { x: 2, y: 1 });
    assert_eq!(a.heading, Heading::East);
    assert_eq!(a.goal, Point { x: 3, y: 1 });
    assert_eq!(m.get_cell(Point { x: 1, y: 1 }), Some(Tile::Visited));
    assert_eq!(m.get_cell(Point { x: 2, y: 1 }), Some(Tile::Passage));
}

#[test]
fn duplicate_copies_every_field() {
    let m = corridor();
    let c = m.duplicate();
    assert_eq!(c.width, m.width);
    assert_eq!(c.height, m.height);
    assert_eq!(c.tiles, m.tiles);
    assert_eq!(c.start, m.start);
    assert_eq!(c.finish, m.finish);
}
