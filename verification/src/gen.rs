//! Randomized generation of the tile grid.
//!
//! The grid interleaves maze cells and walls by coordinate parity: positions
//! with two even coordinates are cells (always open), positions with two odd
//! coordinates are pillar joints (always blocked), and positions with exactly
//! one odd coordinate are wall candidates between two adjacent cells. A
//! Kruskal-style pass over the wall candidates, in a uniformly random order,
//! opens a wall exactly when it still separates two disjoint components of a
//! union-find forest, which yields a spanning tree of the cells.

use crate::tiles::{Position, Tile, TileType, TileVisibility};
use rand::seq::SliceRandom;
use vstd::prelude::*;

verus! {

broadcast use vstd::seq_lib::group_to_multiset_ensures;

/// The row-major index of a position in a square grid of side `size`.
pub open spec fn pos_index(size: int, p: Position) -> int {
    p.y * size + p.x
}

/// The position lies inside the square grid of side `size`.
pub open spec fn in_grid(size: int, p: Position) -> bool {
    p.x < size && p.y < size
}

/// Both coordinates even: a maze cell, open by construction.
pub open spec fn is_cell(p: Position) -> bool {
    p.x % 2 == 0 && p.y % 2 == 0
}

/// Both coordinates odd: a pillar joint, blocked by construction.
pub open spec fn is_pillar(p: Position) -> bool {
    p.x % 2 == 1 && p.y % 2 == 1
}

/// Exactly one odd coordinate: a wall candidate between two cells.
pub open spec fn is_wall(p: Position) -> bool {
    (p.x % 2 == 0) != (p.y % 2 == 0)
}

/// Transient working state for one grid node during generation: the node's
/// own position, its union-find parent link, and its tile type once decided.
#[derive(Copy, Clone)]
struct MazeGenerationTile {
    position: Position,
    link: Position,
    tile_type: Option<TileType>,
}

/// Row-major indexing stays inside the grid.
pub proof fn lemma_row_major_bounds(size: int, x: int, y: int)
    requires
        0 <= x < size,
        0 <= y < size,
    ensures
        0 <= y * size + x < size * size,
{
    assert(0 <= y * size + x < size * size) by (nonlinear_arith)
        requires
            0 <= x < size,
            0 <= y < size,
    ;
}

/// Row-major indexing is injective on in-grid positions.
pub proof fn lemma_pos_index_injective(size: int, p: Position, q: Position)
    requires
        size >= 1,
        in_grid(size, p),
        in_grid(size, q),
        pos_index(size, p) == pos_index(size, q),
    ensures
        p == q,
{
    assert(p.x == q.x && p.y == q.y) by (nonlinear_arith)
        requires
            0 <= p.x < size,
            0 <= q.x < size,
            0 <= p.y,
            0 <= q.y,
            p.y * size + p.x == q.y * size + q.x,
    ;
}

/// Every position of the working grid carries its own coordinates, and every
/// union-find link stays inside the grid.
spec fn gen_positions_ok(map: Seq<MazeGenerationTile>, size: int) -> bool {
    forall|i: int|
        0 <= i < map.len() ==> {
            &&& in_grid(size, (#[trigger] map[i]).position)
            &&& pos_index(size, map[i].position) == i
            &&& in_grid(size, map[i].link)
        }
}

/// Cells are open and pillars blocked, from the first pass on.
spec fn gen_types_ok(map: Seq<MazeGenerationTile>, size: int) -> bool {
    forall|i: int|
        0 <= i < map.len() ==> {
            &&& (is_cell((#[trigger] map[i]).position) ==> map[i].tile_type == Some(
                TileType::Open,
            ))
            &&& (is_pillar(map[i].position) ==> map[i].tile_type == Some(TileType::Blocked))
        }
}

/// The union-find links are acyclic: a ghost rank strictly increases along
/// every link that is not a self-loop, and all ranks stay below `bound`, so
/// following links must reach a fixed point.
spec fn gen_ranked(map: Seq<MazeGenerationTile>, size: int, rank: Seq<nat>, bound: nat) -> bool {
    &&& rank.len() == map.len()
    &&& forall|i: int| 0 <= i < map.len() ==> #[trigger] rank[i] <= bound
    &&& forall|i: int|
        0 <= i < map.len() && pos_index(size, (#[trigger] map[i]).link) != i ==> rank[pos_index(
            size,
            map[i].link,
        )] > rank[i]
}

/// Relies on rand's `SliceRandom::shuffle` with `rand::thread_rng`: a
/// Fisher-Yates shuffle permutes the slice in place by swaps, so the elements
/// are rearranged and none is added, dropped or changed.
#[verifier::external_body]
fn shuffle_positions(v: &mut Vec<Position>)
    ensures
        final(v)@.len() == old(v)@.len(),
        final(v)@.to_multiset() == old(v)@.to_multiset(),
{
    v.shuffle(&mut rand::thread_rng());
}

/// An in-grid wall candidate has its two separated cells in the grid too:
/// odd coordinates in an odd-sized grid are never on the boundary.
proof fn lemma_wall_neighbours_in_grid(size: int, p: Position)
    requires
        size % 2 == 1,
        size >= 1,
        in_grid(size, p),
        is_wall(p),
    ensures
        p.y % 2 == 0 ==> 1 <= p.x && p.x + 1 < size,
        p.y % 2 == 1 ==> 1 <= p.y && p.y + 1 < size,
{
    if p.y % 2 == 0 {
        assert(p.x % 2 == 1);
        assert(1 <= p.x && p.x + 1 < size) by (nonlinear_arith)
            requires
                p.x % 2 == 1,
                size % 2 == 1,
                0 <= p.x < size,
        ;
    } else {
        assert(1 <= p.y && p.y + 1 < size) by (nonlinear_arith)
            requires
                p.y % 2 == 1,
                size % 2 == 1,
                0 <= p.y < size,
        ;
    }
}

/// The row-major index of an in-grid position, as executable code.
fn grid_index(size: usize, p: Position) -> (r: usize)
    requires
        1 <= size,
        size * size <= usize::MAX,
        in_grid(size as int, p),
    ensures
        r == pos_index(size as int, p),
        r < size * size,
{
    proof {
        lemma_row_major_bounds(size as int, p.x as int, p.y as int);
    }
    p.y * size + p.x
}

/// Follow union-find links until a fixed point: the root of `p`'s component.
/// No path compression is applied. Termination comes from the ghost rank,
/// which strictly increases along every non-trivial link.
fn find_root(
    map: &Vec<MazeGenerationTile>,
    size: usize,
    p: Position,
    Ghost(rank): Ghost<Seq<nat>>,
    Ghost(bound): Ghost<nat>,
) -> (r: Position)
    requires
        1 <= size,
        size * size <= usize::MAX,
        map@.len() == size * size,
        gen_positions_ok(map@, size as int),
        gen_ranked(map@, size as int, rank, bound),
        in_grid(size as int, p),
    ensures
        in_grid(size as int, r),
        0 <= pos_index(size as int, r) < map@.len(),
        map@[pos_index(size as int, r)].link == r,
{
    let mut cur = p;
    loop
        invariant
            1 <= size,
            size * size <= usize::MAX,
            map@.len() == size * size,
            gen_positions_ok(map@, size as int),
            gen_ranked(map@, size as int, rank, bound),
            in_grid(size as int, cur),
        decreases bound - rank[pos_index(size as int, cur)],
    {
        let i = grid_index(size, cur);
        let link = map[i].link;
        if link == cur {
            return cur;
        }
        proof {
            lemma_row_major_bounds(size as int, link.x as int, link.y as int);
            if pos_index(size as int, link) == i as int {
                lemma_pos_index_injective(size as int, link, cur);
            }
        }
        cur = link;
    }
}

/// Build the initial tile layout for an odd `size`: a `size * size` grid in
/// row-major order, all tiles hidden, whose open tiles are carved by a
/// randomized spanning-tree construction. Cells (two even coordinates) come
/// out open and pillars (two odd coordinates) blocked, so in particular the
/// two corner tiles at (0, 0) and (size - 1, size - 1) are open.
pub fn generate_random_map(size: usize) -> (r: Vec<Tile>)
    requires
        size % 2 == 1,
        size * size <= usize::MAX,
    ensures
        r@.len() == size * size,
        forall|i: int|
            0 <= i < r@.len() ==> (#[trigger] r@[i]).visibility == TileVisibility::Hidden,
        forall|p: Position|
            in_grid(size as int, p) && is_cell(p) ==> r@[#[trigger] pos_index(
                size as int,
                p,
            )].tile_type == TileType::Open,
        forall|p: Position|
            in_grid(size as int, p) && is_pillar(p) ==> r@[#[trigger] pos_index(
                size as int,
                p,
            )].tile_type == TileType::Blocked,
{
    let ghost sz = size as int;
    assert(size >= 1);

    // First pass: every node starts as its own singleton set, cells open,
    // pillars blocked, walls still undecided.
    let mut gen_map: Vec<MazeGenerationTile> = Vec::new();
    let mut i: usize = 0;
    while i < size
        invariant
            sz == size as int,
            size % 2 == 1,
            1 <= size,
            size * size <= usize::MAX,
            i <= size,
            gen_map@.len() == i * size,
            gen_map@.len() <= size * size,
            gen_positions_ok(gen_map@, sz),
            gen_types_ok(gen_map@, sz),
            forall|k: int|
                0 <= k < gen_map@.len() ==> {
                    &&& (#[trigger] gen_map@[k]).link == gen_map@[k].position
                    &&& (is_wall(gen_map@[k].position) <==> gen_map@[k].tile_type is None)
                },
        decreases size - i,
    {
        let mut j: usize = 0;
        while j < size
            invariant
                sz == size as int,
                size % 2 == 1,
                1 <= size,
                size * size <= usize::MAX,
                i < size,
                j <= size,
                gen_map@.len() == i * size + j,
                gen_positions_ok(gen_map@, sz),
                gen_types_ok(gen_map@, sz),
                forall|k: int|
                    0 <= k < gen_map@.len() ==> {
                        &&& (#[trigger] gen_map@[k]).link == gen_map@[k].position
                        &&& (is_wall(gen_map@[k].position) <==> gen_map@[k].tile_type is None)
                    },
            decreases size - j,
        {
            let pos = Position { x: j, y: i };
            let tile_type: Option<TileType> = if j % 2 == 0 && i % 2 == 0 {
                Some(TileType::Open)
            } else if j % 2 == 1 && i % 2 == 1 {
                Some(TileType::Blocked)
            } else {
                None
            };
            proof {
                lemma_row_major_bounds(sz, j as int, i as int);
            }
            gen_map.push(MazeGenerationTile { position: pos, link: pos, tile_type });
            j += 1;
        }
        proof {
            assert((i + 1) * size == i * size + size) by (nonlinear_arith);
            assert((i + 1) * size <= size * size) by (nonlinear_arith)
                requires
                    i + 1 <= size,
                    0 <= size,
            ;
        }
        i += 1;
    }
    assert(gen_map@.len() == size * size);

    // Second pass: collect the undecided wall candidates.
    let mut candidates: Vec<Position> = Vec::new();
    let mut k: usize = 0;
    while k < size * size
        invariant
            sz == size as int,
            1 <= size,
            size * size <= usize::MAX,
            k <= size * size,
            gen_map@.len() == size * size,
            gen_positions_ok(gen_map@, sz),
            forall|k2: int|
                0 <= k2 < gen_map@.len() ==> (is_wall((#[trigger] gen_map@[k2]).position)
                    <==> gen_map@[k2].tile_type is None),
            forall|t: int|
                0 <= t < candidates@.len() ==> in_grid(sz, #[trigger] candidates@[t]) && is_wall(
                    candidates@[t],
                ),
            forall|t: int|
                0 <= t < k && is_wall((#[trigger] gen_map@[t]).position) ==> candidates@.contains(
                    gen_map@[t].position,
                ),
        decreases size * size - k,
    {
        let gt = gen_map[k];
        let ghost old_candidates = candidates@;
        match gt.tile_type {
            None => candidates.push(gt.position),
            Some(_) => (),
        }
        proof {
            assert(forall|x: Position| old_candidates.contains(x) ==> candidates@.contains(x)) by {
                assert(forall|t: int|
                    0 <= t < old_candidates.len() ==> candidates@[t] == old_candidates[t]);
            }
            if gt.tile_type is None {
                assert(candidates@.last() == gt.position);
                assert(candidates@.contains(gt.position));
            }
        }
        k += 1;
    }

    // Third pass: shuffle the wall candidates into a uniformly random order,
    // the sole source of maze variety.
    let ghost unshuffled = candidates@;
    shuffle_positions(&mut candidates);
    proof {
        assert forall|x: Position| candidates@.contains(x) <==> unshuffled.contains(x) by {
            assert(candidates@.to_multiset().count(x) == unshuffled.to_multiset().count(x));
        }
        assert forall|t: int|
            0 <= t < candidates@.len() implies in_grid(sz, #[trigger] candidates@[t]) && is_wall(
            candidates@[t],
        ) by {
            let x = candidates@[t];
            assert(candidates@.contains(x));
            assert(unshuffled.contains(x));
            let c = choose|c: int| 0 <= c < unshuffled.len() && unshuffled[c] == x;
            assert(in_grid(sz, unshuffled[c]) && is_wall(unshuffled[c]));
        }
    }

    // Fourth pass: carve. A wall opens exactly when it still separates two
    // disjoint components; the two components are then united.
    let ghost mut rank: Seq<nat> = Seq::new(gen_map@.len() as nat, |t: int| 0nat);
    let ghost mut unions: nat = 0;
    let mut w: usize = 0;
    while w < candidates.len()
        invariant
            sz == size as int,
            size % 2 == 1,
            1 <= size,
            size * size <= usize::MAX,
            w <= candidates@.len(),
            gen_map@.len() == size * size,
            gen_positions_ok(gen_map@, sz),
            gen_types_ok(gen_map@, sz),
            gen_ranked(gen_map@, sz, rank, unions),
            forall|t: int|
                0 <= t < candidates@.len() ==> in_grid(sz, #[trigger] candidates@[t]) && is_wall(
                    candidates@[t],
                ),
            forall|t: int|
                0 <= t < gen_map@.len() && is_wall((#[trigger] gen_map@[t]).position)
                    ==> candidates@.contains(gen_map@[t].position),
            forall|t: int|
                0 <= t < w ==> gen_map@[pos_index(sz, #[trigger] candidates@[t])].tile_type
                    is Some,
        decreases candidates@.len() - w,
    {
        let pos = candidates[w];
        proof {
            lemma_wall_neighbours_in_grid(sz, pos);
        }
        let (pa, pb) = if pos.y % 2 == 0 {
            (Position { x: pos.x + 1, y: pos.y }, Position { x: pos.x - 1, y: pos.y })
        } else {
            (Position { x: pos.x, y: pos.y - 1 }, Position { x: pos.x, y: pos.y + 1 })
        };
        let ra = find_root(&gen_map, size, pa, Ghost(rank), Ghost(unions));
        let rb = find_root(&gen_map, size, pb, Ghost(rank), Ghost(unions));
        let wi = grid_index(size, pos);
        let ghost before = gen_map@;
        if ra != rb {
            let mut wt = gen_map[wi];
            wt.tile_type = Some(TileType::Open);
            gen_map[wi] = wt;
            let ri = grid_index(size, ra);
            proof {
                if wi == ri {
                    lemma_pos_index_injective(sz, pos, ra);
                }
            }
            let mut rt = gen_map[ri];
            rt.link = rb;
            gen_map[ri] = rt;
            proof {
                let ia = pos_index(sz, ra);
                let ib = pos_index(sz, rb);
                if ia == ib {
                    lemma_pos_index_injective(sz, ra, rb);
                }
                assert(ia != ib);
                assert(ri as int == ia);
                let prev_rank = rank;
                let prev_unions = unions;
                let new_rank: nat = if prev_rank[ib] >= prev_rank[ia] + 1 {
                    prev_rank[ib]
                } else {
                    (prev_rank[ia] + 1) as nat
                };
                rank = rank.update(ib, new_rank);
                unions = unions + 1;
                // Only the old root of `ra`'s component changed its link, and
                // `rb` is still its own root.
                assert(gen_map@[ia].link == rb);
                assert(forall|q: int|
                    0 <= q < gen_map@.len() && q != ia ==> (#[trigger] gen_map@[q]).link
                        == before[q].link);
                assert(before[ib].link == rb);
                assert forall|t: int|
                    0 <= t < gen_map@.len() && pos_index(sz, (#[trigger] gen_map@[t]).link)
                        != t implies rank[pos_index(sz, gen_map@[t].link)] > rank[t] by {
                    let u = pos_index(sz, gen_map@[t].link);
                    lemma_row_major_bounds(sz, gen_map@[t].link.x as int, gen_map@[t].link.y as int);
                    if t == ia {
                        assert(u == ib);
                        assert(rank[ib] == new_rank);
                        assert(rank[ia] == prev_rank[ia]);
                    } else {
                        assert(gen_map@[t].link == before[t].link);
                        if t == ib {
                            assert(gen_map@[t].link == rb);
                            assert(u == t);
                        } else {
                            assert(prev_rank[u] > prev_rank[t]);
                            assert(rank[t] == prev_rank[t]);
                            if u == ib {
                                assert(rank[u] == new_rank && new_rank >= prev_rank[ib]);
                            } else {
                                assert(rank[u] == prev_rank[u]);
                            }
                        }
                    }
                }
                assert forall|q: int| 0 <= q < gen_map@.len() implies #[trigger] rank[q]
                    <= unions by {
                    if q == ib {
                        assert(rank[q] == new_rank);
                        assert(prev_rank[ia] <= prev_unions && prev_rank[ib] <= prev_unions);
                    } else {
                        assert(rank[q] == prev_rank[q] && prev_rank[q] <= prev_unions);
                    }
                }
                // Decidedness of tile types survives both updates.
                assert(gen_map@[wi as int].tile_type is Some);
                assert(forall|q: int|
                    0 <= q < gen_map@.len() && before[q].tile_type is Some
                        ==> (#[trigger] gen_map@[q]).tile_type is Some);
            }
        } else {
            let mut wt = gen_map[wi];
            wt.tile_type = Some(TileType::Blocked);
            gen_map[wi] = wt;
            proof {
                assert(gen_map@[wi as int].tile_type is Some);
                assert(forall|q: int|
                    0 <= q < gen_map@.len() && before[q].tile_type is Some
                        ==> (#[trigger] gen_map@[q]).tile_type is Some);
            }
        }
        proof {
            assert(gen_map@[wi as int].position == before[wi as int].position);
            lemma_pos_index_injective(sz, before[wi as int].position, pos);
            assert(gen_map@[wi as int].position == pos);
            if is_cell(pos) || is_pillar(pos) {
                assert(false);
            }
            assert forall|q: int|
                0 <= q < gen_map@.len() implies {
                &&& (is_cell((#[trigger] gen_map@[q]).position) ==> gen_map@[q].tile_type == Some(
                    TileType::Open,
                ))
                &&& (is_pillar(gen_map@[q].position) ==> gen_map@[q].tile_type == Some(
                    TileType::Blocked,
                ))
            } by {
                if q != wi as int {
                    assert(gen_map@[q].position == before[q].position);
                    assert(gen_map@[q].tile_type == before[q].tile_type);
                }
            }
            assert forall|t: int|
                0 <= t < w + 1 implies gen_map@[pos_index(
                sz,
                #[trigger] candidates@[t],
            )].tile_type is Some by {
                let pi = pos_index(sz, candidates@[t]);
                lemma_row_major_bounds(sz, candidates@[t].x as int, candidates@[t].y as int);
                if t < w {
                    assert(before[pi].tile_type is Some);
                } else {
                    assert(pi == wi as int);
                }
            }
        }
        w += 1;
    }

    // Every node is now decided: cells and pillars from the first pass, walls
    // because each candidate was processed.
    proof {
        assert forall|t: int| 0 <= t < gen_map@.len() implies (#[trigger] gen_map@[t]).tile_type
            is Some by {
            let p = gen_map@[t].position;
            if is_wall(p) {
                assert(candidates@.contains(p));
                let c = choose|c: int| 0 <= c < candidates@.len() && candidates@[c] == p;
                assert(gen_map@[pos_index(sz, candidates@[c])].tile_type is Some);
            }
        }
    }

    // Final pass: flatten into the tile sequence, every tile hidden.
    let mut tiles: Vec<Tile> = Vec::new();
    let mut t: usize = 0;
    while t < size * size
        invariant
            sz == size as int,
            1 <= size,
            size * size <= usize::MAX,
            t <= size * size,
            gen_map@.len() == size * size,
            gen_positions_ok(gen_map@, sz),
            gen_types_ok(gen_map@, sz),
            forall|k2: int| 0 <= k2 < gen_map@.len() ==> (#[trigger] gen_map@[k2]).tile_type
                is Some,
            tiles@.len() == t,
            forall|k2: int|
                0 <= k2 < t ==> {
                    &&& (#[trigger] tiles@[k2]).visibility == TileVisibility::Hidden
                    &&& Some(tiles@[k2].tile_type) == gen_map@[k2].tile_type
                },
        decreases size * size - t,
    {
        let gt = gen_map[t];
        let tt = gt.tile_type.unwrap();
        tiles.push(Tile { tile_type: tt, visibility: TileVisibility::Hidden });
        t += 1;
    }
    proof {
        assert forall|p: Position| in_grid(sz, p) && is_cell(p) implies tiles@[#[trigger] pos_index(
            sz,
            p,
        )].tile_type == TileType::Open by {
            lemma_row_major_bounds(sz, p.x as int, p.y as int);
            let idx = pos_index(sz, p);
            lemma_pos_index_injective(sz, gen_map@[idx].position, p);
        }
        assert forall|p: Position|
            in_grid(sz, p) && is_pillar(p) implies tiles@[#[trigger] pos_index(
            sz,
            p,
        )].tile_type == TileType::Blocked by {
            lemma_row_major_bounds(sz, p.x as int, p.y as int);
            let idx = pos_index(sz, p);
            lemma_pos_index_injective(sz, gen_map@[idx].position, p);
        }
    }
    tiles
}

} // verus!
