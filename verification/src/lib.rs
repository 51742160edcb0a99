//! A procedurally generated perfect maze with player movement,
//! fog-of-war tile revealing, and a masked serialized view.

mod gen;
mod maze;
mod tiles;

pub use maze::Maze;
pub use tiles::Direction;
pub use tiles::DirectionBlocked;
pub use tiles::NeighbouringTileTypes;
pub use tiles::Position;
pub use tiles::Tile;
pub use tiles::TileType;
pub use tiles::TileVisibility;
