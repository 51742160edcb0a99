use maze::{Direction, Maze, Position, Tile, TileType};

fn tile_type_at(maze: &Maze, x: usize, y: usize) -> TileType {
    maze.tile_at(x, y).tile_type
}

#[test]
/// A generated maze is perfect: the open cells form a spanning tree. The
/// number of open walls is exactly the cell count minus one, and every cell
/// is reachable from the start corner through open walls.
fn generated_maze_is_a_spanning_tree() {
    for &size in [1usize, 3, 5, 9, 15, 21].iter() {
        let maze = Maze::new(size);
        let half = (size + 1) / 2;
        let n_cells = half * half;

        let mut open_walls = 0usize;
        for y in 0..size {
            for x in 0..size {
                let odd_x = x % 2 == 1;
                let odd_y = y % 2 == 1;
                if odd_x != odd_y && tile_type_at(&maze, x, y) == TileType::Open {
                    open_walls += 1;
                }
            }
        }
        assert_eq!(open_walls, n_cells - 1);

        let mut visited = vec![false; n_cells];
        let mut stack = vec![(0usize, 0usize)];
        visited[0] = true;
        let mut reached = 1usize;
        while let Some((cx, cy)) = stack.pop() {
            let x = 2 * cx;
            let y = 2 * cy;
            let mut neighbours: Vec<(usize, usize, usize, usize)> = Vec::new();
            if cx > 0 {
                neighbours.push((x - 1, y, cx - 1, cy));
            }
            if cy > 0 {
                neighbours.push((x, y - 1, cx, cy - 1));
            }
            if x + 2 < size {
                neighbours.push((x + 1, y, cx + 1, cy));
            }
            if y + 2 < size {
                neighbours.push((x, y + 1, cx, cy + 1));
            }
            for &(wx, wy, nx, ny) in neighbours.iter() {
                if tile_type_at(&maze, wx, wy) == TileType::Open && !visited[ny * half + nx] {
                    visited[ny * half + nx] = true;
                    reached += 1;
                    stack.push((nx, ny));
                }
            }
        }
        assert_eq!(reached, n_cells);
    }
}

#[test]
/// Pillar positions (both coordinates odd) are always blocked and cell
/// positions (both coordinates even) always open.
fn generated_maze_parity_types() {
    let size = 9usize;
    let maze = Maze::new(size);
    for y in 0..size {
        for x in 0..size {
            let t = tile_type_at(&maze, x, y);
            if x % 2 == 0 && y % 2 == 0 {
                assert_eq!(t, TileType::Open);
            }
            if x % 2 == 1 && y % 2 == 1 {
                assert_eq!(t, TileType::Blocked);
            }
        }
    }
}

#[test]
/// The set of revealed tiles only ever grows across moves, whether the moves
/// succeed or fail.
fn revealing_is_monotonic_across_moves() {
    let mut maze = Maze::new(9);
    let mut revealed: Vec<bool> = maze.tiles().iter().map(|t| t.is_revealed()).collect();
    let directions = [
        Direction::Down,
        Direction::Right,
        Direction::Down,
        Direction::Up,
        Direction::Left,
        Direction::Right,
        Direction::Right,
        Direction::Down,
        Direction::Left,
        Direction::Up,
    ];
    for &d in directions.iter() {
        let _ = maze.move_player(d);
        let now: Vec<bool> = maze.tiles().iter().map(|t| t.is_revealed()).collect();
        for (before, after) in revealed.iter().zip(now.iter()) {
            assert!(!before || *after);
        }
        revealed = now;
    }
}

#[test]
/// Revealing around the player twice changes nothing over revealing once.
fn revealing_is_idempotent() {
    let mut maze = Maze::from_map(Position { x: 1, y: 1 }, 3, vec![Tile::open(); 9]);
    maze.reveal_around_player();
    let once: Vec<bool> = maze.tiles().iter().map(|t| t.is_revealed()).collect();
    maze.reveal_around_player();
    let twice: Vec<bool> = maze.tiles().iter().map(|t| t.is_revealed()).collect();
    assert_eq!(once, twice);
}

#[test]
/// A single-cell maze serializes with the player label winning over the
/// exit label on their shared tile.
fn single_cell_maze_serializes_as_player() {
    let maze = Maze::new(1);
    assert_eq!(maze.to_json().as_str(), r#"[["player"]]"#);
}

#[test]
/// A fresh unrevealed map masks everything except the player and exit tiles.
fn unrevealed_map_serializes_as_hidden() {
    let maze = Maze::from_map(Position { x: 0, y: 0 }, 3, vec![Tile::open(); 9]);
    assert_eq!(
        maze.to_json().as_str(),
        r#"[["player","hidden","hidden"],["hidden","hidden","hidden"],["hidden","hidden","exit"]]"#
    );
}

#[test]
/// Direction tokens use the lowercase serialized spelling.
fn direction_tokens_are_lowercase() {
    assert_eq!(Direction::Up.token(), "up");
    assert_eq!(Direction::Down.token(), "down");
    assert_eq!(Direction::Left.token(), "left");
    assert_eq!(Direction::Right.token(), "right");
}

#[test]
/// The blocked-move error renders as its single textual message.
fn direction_blocked_message() {
    assert_eq!(maze::DirectionBlocked.message(), "direction blocked");
}

#[test]
/// Tiles start hidden, keep their type through revealing, and report their
/// visibility.
fn tile_basics() {
    let mut t = Tile::open();
    assert!(!t.is_revealed());
    assert_eq!(t.tile_type, TileType::Open);
    t.mark_revealed();
    assert!(t.is_revealed());
    assert_eq!(t.tile_type, TileType::Open);
    let b = Tile::blocked();
    assert_eq!(b.tile_type, TileType::Blocked);
    assert!(!b.is_revealed());
}

#[test]
/// Two fresh mazes of the same size are both valid; their layouts are free
/// to differ, so only the structural guarantees are compared.
fn generation_is_repeatable_per_size() {
    let a = Maze::new(5);
    let b = Maze::new(5);
    assert_eq!(a.tiles().len(), b.tiles().len());
    assert_eq!(a.player(), Position { x: 0, y: 0 });
    assert_eq!(b.player(), Position { x: 0, y: 0 });
}
