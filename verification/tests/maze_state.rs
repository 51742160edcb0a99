use maze::{Maze, NeighbouringTileTypes, Position, Tile, TileType};

pub fn maze_from_slice_with_player_at(x: usize, y: usize, map: &[Tile]) -> Maze {
    let size = (map.len() as f64).sqrt() as usize;
    assert_eq!(map.len(), size * size);
    let mut maze = Maze::from_map(Position { x, y }, size, Vec::from(map));
    maze.reveal_around_player();
    maze
}

#[test]
/// A new map gets created with a backing array of cells of size equal to a square of `size`
/// sides.
fn creating_maze_with_size() {
    for size in (1..100).filter(|x| x & 1 != 0) {
        let maze = Maze::new(size);
        assert_eq!(maze.tiles().len(), size * size);
    }
}

#[test]
/// Start and exit tile are not blocked in a random maze
fn random_maze_start_and_exit_not_blocked() {
    for size in (1..100).filter(|x| x & 1 != 0) {
        let maze = Maze::new(size);

        let start_tile_type = maze.tile_at(0, 0).tile_type;
        let end_tile_type = maze.tile_at(size - 1, size - 1).tile_type;

        assert_eq!(start_tile_type, TileType::Open);
        assert_eq!(end_tile_type, TileType::Open);
    }
}

#[test]
/// The map maze should serialize to a 2d array instead of its internal representation.
fn mazemap_serializes_to_a_2d_array() {
    fn set(map: &mut Vec<Tile>, size: usize, x: usize, y: usize, cell: Tile) {
        map[size * y + x] = cell;
    }

    let test_cases = [
        (3, r#"[["player","hidden","blocked"],["hidden","blocked","blocked"],["blocked","blocked","exit"]]"#),
        (2, r#"[["player","hidden"],["hidden","exit"]]"#),
    ];
    for &(size, expected) in test_cases.iter() {
        let mut blocked = Tile::blocked();
        blocked.mark_revealed();
        let mut open = Tile::open();
        open.mark_revealed();
        let mut map = vec![blocked; size * size];

        set(&mut map, size, 0, 0, open);
        set(&mut map, size, 1, 0, Tile::blocked());
        set(&mut map, size, 0, 1, Tile::open());

        // The overridden tiles keep their forced visibility, so the maze is
        // assembled from the finished grid without revealing anything more.
        let maze = Maze::from_map(Position { x: 0, y: 0 }, size, map);

        let serialized = maze.to_json();
        assert_eq!(serialized.as_str(), expected);
    }
}

fn neighbouring_tile_types_test_setup(
    size: usize,
    player_position: Position,
) -> NeighbouringTileTypes {
    let maze = maze_from_slice_with_player_at(
        player_position.x,
        player_position.y,
        &vec![Tile::open(); size * size],
    );
    maze.neighbouring_tile_types()
}

#[test]
/// Checks that negative coordinates given to the neighbouring_tile_types function actually return blocked
fn when_in_upper_left_corner_up_and_left_are_blocked() {
    let tile_types_actual = neighbouring_tile_types_test_setup(2, Position { x: 0, y: 0 });
    let tile_types_should_be = NeighbouringTileTypes {
        left: TileType::Blocked,
        right: TileType::Open,
        up: TileType::Blocked,
        down: TileType::Open,
    };
    assert_eq!(tile_types_actual, tile_types_should_be);
}

#[test]
/// Checks that the neighbouring_tile_types function returns simply the map given no borders
fn when_in_middle_all_open() {
    let tile_types_actual = neighbouring_tile_types_test_setup(3, Position { x: 1, y: 1 });
    let tile_types_should_be = NeighbouringTileTypes {
        left: TileType::Open,
        right: TileType::Open,
        up: TileType::Open,
        down: TileType::Open,
    };
    assert_eq!(tile_types_actual, tile_types_should_be);
}

#[test]
/// Checks that coordinates given to the neighbouring_tile_types function that exceeds the size actually return blocked
fn when_in_bottom_right_corner_down_and_right_are_blocked() {
    let tile_types_actual = neighbouring_tile_types_test_setup(100, Position { x: 99, y: 99 });
    let tile_types_should_be = NeighbouringTileTypes {
        left: TileType::Open,
        right: TileType::Blocked,
        up: TileType::Open,
        down: TileType::Blocked,
    };
    assert_eq!(tile_types_actual, tile_types_should_be);
}
