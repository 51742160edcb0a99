//! The small value types of the maze: positions, tiles, directions,
//! and the one recoverable error.

use vstd::prelude::*;

verus! {

/// A grid coordinate. `x` grows to the right, `y` grows downwards.
#[derive(Debug, Copy, Clone, PartialEq, Eq, Structural)]
pub struct Position {
    pub x: usize,
    pub y: usize,
}

/// Whether a tile can be walked on.
#[derive(Debug, Copy, Clone, PartialEq, Eq, Structural)]
pub enum TileType {
    Blocked,
    Open,
}

/// Whether the player has already seen a tile. Transitions are one-way:
/// a tile starts `Hidden` and can only ever become `Revealed`.
#[derive(Debug, Copy, Clone, PartialEq, Eq, Structural)]
pub enum TileVisibility {
    Hidden,
    Revealed,
}

/// One cell of the maze grid: its type together with its visibility.
#[derive(Debug, Copy, Clone, PartialEq, Eq, Structural)]
pub struct Tile {
    pub tile_type: TileType,
    pub visibility: TileVisibility,
}

/// A direction the player can try to move in.
#[derive(Debug, Copy, Clone, PartialEq, Eq, Structural)]
pub enum Direction {
    Up,
    Down,
    Left,
    Right,
}

/// The sole recoverable error: the requested move runs into a wall or
/// off the edge of the grid.
#[derive(Debug, Copy, Clone, PartialEq, Eq, Structural)]
pub struct DirectionBlocked;

/// The tile types of the four grid-adjacent positions around the player.
/// Out-of-bounds neighbours are reported as `Blocked`.
#[derive(Debug, Copy, Clone, PartialEq, Eq, Structural)]
pub struct NeighbouringTileTypes {
    pub left: TileType,
    pub right: TileType,
    pub up: TileType,
    pub down: TileType,
}

impl Tile {
    /// An open (walkable) tile, not yet revealed.
    pub fn open() -> (r: Tile)
        ensures
            r == (Tile { tile_type: TileType::Open, visibility: TileVisibility::Hidden }),
    {
        Tile { tile_type: TileType::Open, visibility: TileVisibility::Hidden }
    }

    /// A blocked (wall) tile, not yet revealed.
    pub fn blocked() -> (r: Tile)
        ensures
            r == (Tile { tile_type: TileType::Blocked, visibility: TileVisibility::Hidden }),
    {
        Tile { tile_type: TileType::Blocked, visibility: TileVisibility::Hidden }
    }

    /// Make the tile visible. Keeps its type; revealing an already
    /// revealed tile changes nothing.
    pub fn mark_revealed(&mut self)
        ensures
            *final(self) == (Tile {
                tile_type: old(self).tile_type,
                visibility: TileVisibility::Revealed,
            }),
    {
        self.visibility = TileVisibility::Revealed
    }

    /// Whether the tile has been revealed.
    pub fn is_revealed(self) -> (r: bool)
        ensures
            r == (self.visibility == TileVisibility::Revealed),
    {
        match self.visibility {
            TileVisibility::Revealed => true,
            TileVisibility::Hidden => false,
        }
    }
}

impl Direction {
    /// The lowercase token this direction uses across a serialization
    /// boundary.
    pub fn token(&self) -> (r: &'static str)
        ensures
            r@ == match *self {
                Direction::Up => "up"@,
                Direction::Down => "down"@,
                Direction::Left => "left"@,
                Direction::Right => "right"@,
            },
    {
        match self {
            Direction::Up => "up",
            Direction::Down => "down",
            Direction::Left => "left",
            Direction::Right => "right",
        }
    }
}

impl DirectionBlocked {
    /// The textual form of the error, as surfaced across a serialization
    /// boundary.
    pub fn message(&self) -> (r: &'static str)
        ensures
            r@ == "direction blocked"@,
    {
        "direction blocked"
    }
}

} // verus!
