//! The live maze state: the generated tile grid plus the player and exit
//! positions, with movement, neighbour inspection and visibility revealing.

use crate::gen;
use crate::gen::{in_grid, is_cell, is_pillar, lemma_row_major_bounds, pos_index};
use crate::tiles::{
    Direction, DirectionBlocked, NeighbouringTileTypes, Position, Tile, TileType, TileVisibility,
};
use vstd::prelude::*;
use vstd::string::StringExecFns;

verus! {

/// The tile type read at signed coordinates, an out-of-bounds position
/// counting as a permanent wall.
pub open spec fn type_at_or_blocked(map: Seq<Tile>, size: int, x: int, y: int) -> TileType {
    if x < 0 || y < 0 || x >= size || y >= size {
        TileType::Blocked
    } else {
        map[y * size + x].tile_type
    }
}

/// The coordinates one step from `p` in direction `d`, as unclamped integers,
/// so stepping off the low edge shows up as a negative coordinate.
pub open spec fn move_target(p: Position, d: Direction) -> (int, int) {
    match d {
        Direction::Up => (p.x as int, p.y - 1),
        Direction::Down => (p.x as int, p.y + 1),
        Direction::Left => (p.x - 1, p.y as int),
        Direction::Right => (p.x + 1, p.y as int),
    }
}

/// A move to (x, y) is rejected exactly when the target is off the grid or a
/// blocked tile.
pub open spec fn move_blocked(map: Seq<Tile>, size: int, x: int, y: int) -> bool {
    type_at_or_blocked(map, size, x, y) == TileType::Blocked
}

/// The indices revealed around a player at (px, py): the player's own tile
/// and each of the up-to-four grid-adjacent tiles that exist within bounds.
pub open spec fn near_player(size: int, px: int, py: int, i: int) -> bool {
    ||| i == py * size + px
    ||| px > 0 && i == py * size + px - 1
    ||| py > 0 && i == (py - 1) * size + px
    ||| px + 1 < size && i == py * size + px + 1
    ||| py + 1 < size && i == (py + 1) * size + px
}

/// The map after revealing the neighbourhood of (px, py): visibility is set
/// on the neighbourhood and every tile keeps its type.
pub open spec fn reveal_near(map: Seq<Tile>, size: int, px: int, py: int) -> Seq<Tile> {
    Seq::new(
        map.len(),
        |i: int|
            if near_player(size, px, py, i) {
                Tile { tile_type: map[i].tile_type, visibility: TileVisibility::Revealed }
            } else {
                map[i]
            },
    )
}

/// The maze aggregate. The grid is a flat row-major sequence of
/// `size * size` tiles; the exit sits fixed in the far corner.
#[derive(Debug, Clone)]
pub struct Maze {
    player: Position,
    exit: Position,
    size: usize,
    map: Vec<Tile>,
}

impl Maze {
    /// The side length of the square grid.
    pub closed spec fn spec_size(&self) -> usize {
        self.size
    }

    /// The player's current position.
    pub closed spec fn spec_player(&self) -> Position {
        self.player
    }

    /// The exit position.
    pub closed spec fn spec_exit(&self) -> Position {
        self.exit
    }

    /// The tile grid, row-major.
    pub closed spec fn spec_map(&self) -> Seq<Tile> {
        self.map@
    }

    /// Structural well-formedness: a square grid with the player inside it
    /// and the exit pinned to the far corner.
    pub open spec fn wf(&self) -> bool {
        &&& 1 <= self.spec_size()
        &&& self.spec_map().len() == self.spec_size() * self.spec_size()
        &&& self.spec_player().x < self.spec_size()
        &&& self.spec_player().y < self.spec_size()
        &&& self.spec_exit().x == self.spec_size() - 1
        &&& self.spec_exit().y == self.spec_size() - 1
    }

    /// Create a maze of the given odd size: a freshly generated random grid,
    /// the player at (0, 0), the exit at (size - 1, size - 1), and exactly
    /// the starting neighbourhood revealed. Both corners come out open.
    pub fn new(size: usize) -> (r: Maze)
        requires
            size % 2 == 1,
            size * size <= usize::MAX,
        ensures
            r.wf(),
            r.spec_size() == size,
            r.spec_player() == (Position { x: 0, y: 0 }),
            r.spec_map().len() == size * size,
            forall|i: int|
                0 <= i < r.spec_map().len() ==> ((#[trigger] r.spec_map()[i]).visibility
                    == TileVisibility::Revealed <==> near_player(size as int, 0, 0, i)),
            forall|p: Position|
                in_grid(size as int, p) && is_cell(p) ==> r.spec_map()[#[trigger] pos_index(
                    size as int,
                    p,
                )].tile_type == TileType::Open,
            forall|p: Position|
                in_grid(size as int, p) && is_pillar(p) ==> r.spec_map()[#[trigger] pos_index(
                    size as int,
                    p,
                )].tile_type == TileType::Blocked,
            r.spec_map()[0].tile_type == TileType::Open,
            r.spec_map()[pos_index(size as int, r.spec_exit())].tile_type == TileType::Open,
    {
        let random_map = Maze::generate_random_map(size);
        let ghost m0 = random_map@;
        let mut maze = Maze {
            player: Position { x: 0, y: 0 },
            exit: Position { x: size - 1, y: size - 1 },
            size,
            map: random_map,
        };
        maze.reveal_around_player();
        proof {
            assert forall|i: int|
                0 <= i < maze.spec_map().len() implies ((#[trigger] maze.spec_map()[i]).visibility
                == TileVisibility::Revealed <==> near_player(size as int, 0, 0, i)) by {
                assert(maze.spec_map()[i] == reveal_near(m0, size as int, 0, 0)[i]);
            }
            assert forall|p: Position|
                in_grid(size as int, p) && is_cell(p) implies maze.spec_map()[#[trigger] pos_index(
                size as int,
                p,
            )].tile_type == TileType::Open by {
                lemma_row_major_bounds(size as int, p.x as int, p.y as int);
            }
            assert forall|p: Position|
                in_grid(size as int, p) && is_pillar(p) implies maze.spec_map()[
            #[trigger] pos_index(size as int, p)].tile_type == TileType::Blocked by {
                lemma_row_major_bounds(size as int, p.x as int, p.y as int);
            }
            assert((size as int - 1) % 2 == 0) by (nonlinear_arith)
                requires
                    size as int % 2 == 1,
                    size >= 1,
            ;
            assert(is_cell(Position { x: 0, y: 0 }));
            assert(is_cell(maze.spec_exit()));
            assert(in_grid(size as int, maze.spec_exit()));
            assert(pos_index(size as int, Position { x: 0usize, y: 0usize }) == 0);
        }
        maze
    }

    /// Build the initial random tile layout; see the generator module.
    fn generate_random_map(size: usize) -> (r: Vec<Tile>)
        requires
            size % 2 == 1,
            size * size <= usize::MAX,
        ensures
            r@.len() == size * size,
            forall|i: int|
                0 <= i < r@.len() ==> (#[trigger] r@[i]).visibility == TileVisibility::Hidden,
            forall|p: Position|
                in_grid(size as int, p) && is_cell(p) ==> r@[#[trigger] pos_index(
                    size as int,
                    p,
                )].tile_type == TileType::Open,
            forall|p: Position|
                in_grid(size as int, p) && is_pillar(p) ==> r@[#[trigger] pos_index(
                    size as int,
                    p,
                )].tile_type == TileType::Blocked,
    {
        gen::generate_random_map(size)
    }

    /// Assemble a maze from an already prepared tile grid, with the player
    /// at the given position and the exit in the far corner. The grid must
    /// be square.
    pub fn from_map(player: Position, size: usize, map: Vec<Tile>) -> (r: Maze)
        requires
            1 <= size,
            map@.len() == size * size,
            player.x < size,
            player.y < size,
        ensures
            r.wf(),
            r.spec_size() == size,
            r.spec_player() == player,
            r.spec_map() == map@,
    {
        Maze { player, exit: Position { x: size - 1, y: size - 1 }, size, map }
    }

    /// The row-major index of (x, y).
    fn to_index(&self, x: usize, y: usize) -> (r: usize)
        requires
            self.wf(),
            x < self.spec_size(),
            y < self.spec_size(),
        ensures
            r == y * self.spec_size() + x,
            r < self.spec_map().len(),
    {
        let len = self.map.len();
        proof {
            lemma_row_major_bounds(self.spec_size() as int, x as int, y as int);
            assert(y * self.spec_size() + x < len);
        }
        y * self.size + x
    }

    /// The tile at in-bounds coordinates (x, y).
    pub fn tile_at(&self, x: usize, y: usize) -> (r: Tile)
        requires
            self.wf(),
            x < self.spec_size(),
            y < self.spec_size(),
        ensures
            r == self.spec_map()[y * self.spec_size() + x],
    {
        let i = self.to_index(x, y);
        self.map[i]
    }

    /// Reveal the single tile at (x, y), keeping its type.
    fn reveal_at(&mut self, x: usize, y: usize)
        requires
            old(self).wf(),
            x < old(self).spec_size(),
            y < old(self).spec_size(),
        ensures
            final(self).wf(),
            final(self).spec_size() == old(self).spec_size(),
            final(self).spec_player() == old(self).spec_player(),
            final(self).spec_exit() == old(self).spec_exit(),
            final(self).spec_map() == old(self).spec_map().update(
                y * old(self).spec_size() + x,
                (Tile {
                    tile_type: old(self).spec_map()[y * old(self).spec_size() + x].tile_type,
                    visibility: TileVisibility::Revealed,
                }),
            ),
    {
        let i = self.to_index(x, y);
        let mut t = self.map[i];
        t.mark_revealed();
        self.map[i] = t;
    }

    /// Reveal the player's own tile and its in-bounds grid neighbours.
    /// Revealing is monotonic: no tile ever goes back to hidden.
    pub fn reveal_around_player(&mut self)
        requires
            old(self).wf(),
        ensures
            final(self).wf(),
            final(self).spec_size() == old(self).spec_size(),
            final(self).spec_player() == old(self).spec_player(),
            final(self).spec_exit() == old(self).spec_exit(),
            final(self).spec_map() == reveal_near(
                old(self).spec_map(),
                old(self).spec_size() as int,
                old(self).spec_player().x as int,
                old(self).spec_player().y as int,
            ),
    {
        let ghost m0 = self.spec_map();
        let ghost s = self.spec_size() as int;
        let ghost px = self.spec_player().x as int;
        let ghost py = self.spec_player().y as int;
        let player_x = self.player.x;
        let player_y = self.player.y;
        self.reveal_at(player_x, player_y);
        if player_x > 0 {
            self.reveal_at(player_x - 1, player_y);
        }
        if player_y > 0 {
            self.reveal_at(player_x, player_y - 1);
        }
        if player_x < self.size - 1 {
            self.reveal_at(player_x + 1, player_y);
        }
        if player_y < self.size - 1 {
            self.reveal_at(player_x, player_y + 1);
        }
        proof {
            assert((py - 1) * s == py * s - s && (py + 1) * s == py * s + s) by (nonlinear_arith);
            lemma_row_major_bounds(s, px, py);
            if px > 0 {
                lemma_row_major_bounds(s, px - 1, py);
            }
            if py > 0 {
                lemma_row_major_bounds(s, px, py - 1);
            }
            if px + 1 < s {
                lemma_row_major_bounds(s, px + 1, py);
            }
            if py + 1 < s {
                lemma_row_major_bounds(s, px, py + 1);
            }
            assert(self.spec_map() =~= reveal_near(m0, s, px, py));
        }
    }

    /// Try to move the player one step. On success the player moves and the
    /// new neighbourhood is revealed; a move off the grid or into a wall
    /// fails with `DirectionBlocked` and changes nothing.
    pub fn move_player(&mut self, direction: Direction) -> (r: Result<(), DirectionBlocked>)
        requires
            old(self).wf(),
        ensures
            final(self).wf(),
            final(self).spec_size() == old(self).spec_size(),
            final(self).spec_exit() == old(self).spec_exit(),
            ({
                let (tx, ty) = move_target(old(self).spec_player(), direction);
                match r {
                    Result::Ok(u) => {
                        &&& !move_blocked(
                            old(self).spec_map(),
                            old(self).spec_size() as int,
                            tx,
                            ty,
                        )
                        &&& final(self).spec_player() == (Position {
                            x: tx as usize,
                            y: ty as usize,
                        })
                        &&& final(self).spec_map() == reveal_near(
                            old(self).spec_map(),
                            old(self).spec_size() as int,
                            tx,
                            ty,
                        )
                    },
                    Result::Err(e) => {
                        &&& move_blocked(old(self).spec_map(), old(self).spec_size() as int, tx, ty)
                        &&& e == DirectionBlocked
                        &&& final(self).spec_player() == old(self).spec_player()
                        &&& final(self).spec_map() == old(self).spec_map()
                    },
                }
            }),
    {
        self.internal_move_player(direction)
    }

    /// The movement rule behind `move_player`.
    fn internal_move_player(&mut self, direction: Direction) -> (r: Result<(), DirectionBlocked>)
        requires
            old(self).wf(),
        ensures
            final(self).wf(),
            final(self).spec_size() == old(self).spec_size(),
            final(self).spec_exit() == old(self).spec_exit(),
            ({
                let (tx, ty) = move_target(old(self).spec_player(), direction);
                match r {
                    Result::Ok(u) => {
                        &&& !move_blocked(
                            old(self).spec_map(),
                            old(self).spec_size() as int,
                            tx,
                            ty,
                        )
                        &&& final(self).spec_player() == (Position {
                            x: tx as usize,
                            y: ty as usize,
                        })
                        &&& final(self).spec_map() == reveal_near(
                            old(self).spec_map(),
                            old(self).spec_size() as int,
                            tx,
                            ty,
                        )
                    },
                    Result::Err(e) => {
                        &&& move_blocked(old(self).spec_map(), old(self).spec_size() as int, tx, ty)
                        &&& e == DirectionBlocked
                        &&& final(self).spec_player() == old(self).spec_player()
                        &&& final(self).spec_map() == old(self).spec_map()
                    },
                }
            }),
    {
        let px = self.player.x;
        let py = self.player.y;
        let mut in_bounds = true;
        let mut tx: usize = 0;
        let mut ty: usize = 0;
        match direction {
            Direction::Up => {
                if py == 0 {
                    in_bounds = false;
                } else {
                    tx = px;
                    ty = py - 1;
                }
            },
            Direction::Down => {
                if py + 1 >= self.size {
                    in_bounds = false;
                } else {
                    tx = px;
                    ty = py + 1;
                }
            },
            Direction::Left => {
                if px == 0 {
                    in_bounds = false;
                } else {
                    tx = px - 1;
                    ty = py;
                }
            },
            Direction::Right => {
                if px + 1 >= self.size {
                    in_bounds = false;
                } else {
                    tx = px + 1;
                    ty = py;
                }
            },
        }
        if !in_bounds {
            return Err(DirectionBlocked);
        }
        let target = self.tile_at(tx, ty);
        if target.tile_type == TileType::Blocked {
            return Err(DirectionBlocked);
        }
        self.player = Position { x: tx, y: ty };
        self.reveal_around_player();
        Ok(())
    }

    /// The tile type at (x, y), an out-of-bounds position reading as blocked.
    fn tile_type_at(&self, x: usize, y: usize) -> (r: TileType)
        requires
            self.wf(),
        ensures
            r == type_at_or_blocked(self.spec_map(), self.spec_size() as int, x as int, y as int),
    {
        if x >= self.size || y >= self.size {
            TileType::Blocked
        } else {
            self.tile_at(x, y).tile_type
        }
    }

    /// The tile types of the four grid-adjacent positions around the player,
    /// read from the true map without touching visibility; out-of-bounds
    /// neighbours read as blocked.
    pub fn neighbouring_tile_types(&self) -> (r: NeighbouringTileTypes)
        requires
            self.wf(),
        ensures
            ({
                let map = self.spec_map();
                let s = self.spec_size() as int;
                let px = self.spec_player().x as int;
                let py = self.spec_player().y as int;
                &&& r.left == type_at_or_blocked(map, s, px - 1, py)
                &&& r.right == type_at_or_blocked(map, s, px + 1, py)
                &&& r.up == type_at_or_blocked(map, s, px, py - 1)
                &&& r.down == type_at_or_blocked(map, s, px, py + 1)
            }),
    {
        let px = self.player.x;
        let py = self.player.y;
        let left = if px == 0 {
            TileType::Blocked
        } else {
            self.tile_type_at(px - 1, py)
        };
        let up = if py == 0 {
            TileType::Blocked
        } else {
            self.tile_type_at(px, py - 1)
        };
        let right = self.tile_type_at(px + 1, py);
        let down = self.tile_type_at(px, py + 1);
        NeighbouringTileTypes { left, right, up, down }
    }

    /// The player's current position.
    pub fn player(&self) -> (r: Position)
        ensures
            r == self.spec_player(),
    {
        self.player
    }

    /// The full tile grid, row-major.
    pub fn tiles(&self) -> (r: &Vec<Tile>)
        ensures
            r@ == self.spec_map(),
    {
        &self.map
    }

    /// The label shown for (x, y) in the serialized view.
    fn cell_label_at(&self, x: usize, y: usize) -> (r: &'static str)
        requires
            self.wf(),
            x < self.spec_size(),
            y < self.spec_size(),
        ensures
            r@ == cell_label(
                self.spec_map(),
                self.spec_size() as int,
                self.spec_player(),
                self.spec_exit(),
                x as int,
                y as int,
            ),
    {
        if self.player.x == x && self.player.y == y {
            "player"
        } else if self.exit.x == x && self.exit.y == y {
            "exit"
        } else {
            let t = self.tile_at(x, y);
            if t.is_revealed() {
                if t.tile_type == TileType::Open {
                    "open"
                } else {
                    "blocked"
                }
            } else {
                "hidden"
            }
        }
    }

    /// One row of the serialized view as JSON text, brackets excluded.
    fn row_to_json(&self, y: usize) -> (r: String)
        requires
            self.wf(),
            y < self.spec_size(),
        ensures
            r@ == row_json(
                self.spec_map(),
                self.spec_size() as int,
                self.spec_player(),
                self.spec_exit(),
                y as int,
                self.spec_size() as int,
            ),
    {
        let mut row = String::new();
        let mut x: usize = 0;
        while x < self.size
            invariant
                self.wf(),
                y < self.spec_size(),
                x <= self.spec_size(),
                row@ == row_json(
                    self.spec_map(),
                    self.spec_size() as int,
                    self.spec_player(),
                    self.spec_exit(),
                    y as int,
                    x as int,
                ),
            decreases self.spec_size() - x,
        {
            if x > 0 {
                row.append(",");
            }
            row.append("\"");
            let label = self.cell_label_at(x, y);
            row.append(label);
            row.append("\"");
            proof {
                assert(row@ =~= row_json(
                    self.spec_map(),
                    self.spec_size() as int,
                    self.spec_player(),
                    self.spec_exit(),
                    y as int,
                    x as int + 1,
                ));
            }
            x += 1;
        }
        row
    }

    /// The complete serialized view: a JSON array of `size` rows of `size`
    /// labels each, with unrevealed tiles masked as "hidden".
    pub fn to_json(&self) -> (r: String)
        requires
            self.wf(),
        ensures
            r@ == maze_json(
                self.spec_map(),
                self.spec_size() as int,
                self.spec_player(),
                self.spec_exit(),
            ),
    {
        let ghost map = self.spec_map();
        let ghost s = self.spec_size() as int;
        let ghost player = self.spec_player();
        let ghost exit = self.spec_exit();
        let mut out = String::new();
        out.append("[");
        proof {
            assert(out@ =~= "["@ + rows_json(map, s, player, exit, 0));
        }
        let mut y: usize = 0;
        while y < self.size
            invariant
                self.wf(),
                map == self.spec_map(),
                s == self.spec_size() as int,
                player == self.spec_player(),
                exit == self.spec_exit(),
                y <= self.spec_size(),
                out@ == "["@ + rows_json(map, s, player, exit, y as int),
            decreases self.spec_size() - y,
        {
            if y > 0 {
                out.append(",");
            }
            out.append("[");
            let row = self.row_to_json(y);
            out.append(row.as_str());
            out.append("]");
            proof {
                assert(out@ =~= "["@ + rows_json(map, s, player, exit, y as int + 1));
            }
            y += 1;
        }
        out.append("]");
        proof {
            assert(out@ =~= maze_json(map, s, player, exit));
        }
        out
    }
}

/// The serialized label of grid position (x, y): the player's position wins
/// over the exit, then a revealed tile shows its true type, and an
/// unrevealed tile is masked as "hidden" whatever its type.
pub open spec fn cell_label(
    map: Seq<Tile>,
    size: int,
    player: Position,
    exit: Position,
    x: int,
    y: int,
) -> Seq<char> {
    if player.x == x && player.y == y {
        "player"@
    } else if exit.x == x && exit.y == y {
        "exit"@
    } else if map[y * size + x].visibility == TileVisibility::Revealed {
        if map[y * size + x].tile_type == TileType::Open {
            "open"@
        } else {
            "blocked"@
        }
    } else {
        "hidden"@
    }
}

/// The JSON text of the first `n` labels of row `y`, each quoted, joined
/// with commas.
pub open spec fn row_json(
    map: Seq<Tile>,
    size: int,
    player: Position,
    exit: Position,
    y: int,
    n: int,
) -> Seq<char>
    decreases n,
{
    if n <= 0 {
        Seq::empty()
    } else if n == 1 {
        "\""@ + cell_label(map, size, player, exit, 0, y) + "\""@
    } else {
        row_json(map, size, player, exit, y, n - 1) + ","@ + "\""@ + cell_label(
            map,
            size,
            player,
            exit,
            n - 1,
            y,
        ) + "\""@
    }
}

/// The JSON text of the first `n` rows, each bracketed, joined with commas.
pub open spec fn rows_json(
    map: Seq<Tile>,
    size: int,
    player: Position,
    exit: Position,
    n: int,
) -> Seq<char>
    decreases n,
{
    if n <= 0 {
        Seq::empty()
    } else if n == 1 {
        "["@ + row_json(map, size, player, exit, 0, size) + "]"@
    } else {
        rows_json(map, size, player, exit, n - 1) + ","@ + "["@ + row_json(
            map,
            size,
            player,
            exit,
            n - 1,
            size,
        ) + "]"@
    }
}

/// The complete serialized view of a maze as JSON text.
pub open spec fn maze_json(map: Seq<Tile>, size: int, player: Position, exit: Position) -> Seq<
    char,
> {
    "["@ + rows_json(map, size, player, exit, size) + "]"@
}

/// Law: revealing a neighbourhood is monotonic — a tile revealed before is
/// still revealed after — and leaves every tile's type untouched.
pub proof fn lemma_reveal_monotonic(map: Seq<Tile>, size: int, px: int, py: int)
    ensures
        reveal_near(map, size, px, py).len() == map.len(),
        forall|i: int|
            0 <= i < map.len() && map[i].visibility == TileVisibility::Revealed ==> (
            #[trigger] reveal_near(map, size, px, py)[i]).visibility == TileVisibility::Revealed,
        forall|i: int|
            0 <= i < map.len() ==> (#[trigger] reveal_near(map, size, px, py)[i]).tile_type
                == map[i].tile_type,
{
}

/// Law: revealing the same neighbourhood twice changes nothing over
/// revealing it once.
pub proof fn lemma_reveal_idempotent(map: Seq<Tile>, size: int, px: int, py: int)
    ensures
        reveal_near(reveal_near(map, size, px, py), size, px, py) == reveal_near(
            map,
            size,
            px,
            py,
        ),
{
    assert(reveal_near(reveal_near(map, size, px, py), size, px, py) =~= reveal_near(
        map,
        size,
        px,
        py,
    ));
}

/// Law: in a one-tile maze, whatever the grid holds, every direction's move
/// target lies outside the grid and so is blocked.
pub proof fn lemma_unit_maze_blocks_all(map: Seq<Tile>, d: Direction)
    ensures
        ({
            let (tx, ty) = move_target(Position { x: 0, y: 0 }, d);
            move_blocked(map, 1, tx, ty)
        }),
{
}

/// Law: at the top-left corner of an all-open maze, the out-of-bounds left
/// and up neighbours read as blocked, while right and down read the true
/// (open) type of the adjacent tile.
pub proof fn lemma_corner_neighbour_types(map: Seq<Tile>, size: int)
    requires
        size >= 1,
        map.len() == size * size,
        forall|i: int| 0 <= i < map.len() ==> (#[trigger] map[i]).tile_type == TileType::Open,
    ensures
        type_at_or_blocked(map, size, -1, 0) == TileType::Blocked,
        type_at_or_blocked(map, size, 0, -1) == TileType::Blocked,
        size > 1 ==> type_at_or_blocked(map, size, 1, 0) == TileType::Open,
        size > 1 ==> type_at_or_blocked(map, size, 0, 1) == TileType::Open,
{
    if size > 1 {
        assert(1 < size * size && size < size * size) by (nonlinear_arith)
            requires
                size > 1,
        ;
    }
}

} // verus!
