//! The spatial index: once per tick, recompute from current positions
//! which cells are blocked and which entities occupy which cell. A pure
//! recomputation over current state, idempotent if re-run unchanged.

use vstd::prelude::*;

use crate::map::{GameMap, TileType};
use crate::world::World;

verus! {

/// Entity `e` is alive and stands on flat cell `idx`.
pub open spec fn occupies(w: World, m: GameMap, e: int, idx: int) -> bool {
    &&& w.alive@[e]
    &&& w.positions@[e] is Some
    &&& m.spec_idx(w.positions@[e]->0.x as int, w.positions@[e]->0.y as int) == idx
}

/// Entity `e` occupies `idx` and blocks it.
pub open spec fn blocks_at(w: World, m: GameMap, e: int, idx: int) -> bool {
    occupies(w, m, e, idx) && w.blocks_tile@[e] is Some
}

/// The occupants of cell `idx` among entities `0..n`, in id order.
pub open spec fn occupants_upto(w: World, m: GameMap, idx: int, n: int) -> Seq<usize>
    decreases n,
{
    if n <= 0 {
        Seq::<usize>::empty()
    } else {
        let pre = occupants_upto(w, m, idx, n - 1);
        if occupies(w, m, n - 1, idx) {
            pre.push((n - 1) as usize)
        } else {
            pre
        }
    }
}

/// Every listed occupant is an entity of the world.
pub proof fn lemma_occupants_valid(w: World, m: GameMap, idx: int, k: int)
    requires
        k <= w.n(),
    ensures
        forall|i: int|
            0 <= i < occupants_upto(w, m, idx, k).len() ==> #[trigger] occupants_upto(
                w,
                m,
                idx,
                k,
            )[i] < w.n(),
    decreases k,
{
    if k > 0 {
        lemma_occupants_valid(w, m, idx, k - 1);
        let pre = occupants_upto(w, m, idx, k - 1);
        let cur = occupants_upto(w, m, idx, k);
        assert forall|i: int| 0 <= i < cur.len() implies #[trigger] cur[i] < w.n() by {
            if i < pre.len() {
                assert(cur[i] == pre[i]);
            }
        }
    }
}

/// Every live positioned entity stands on a cell of the map.
pub open spec fn positions_in_bounds(w: World, m: GameMap) -> bool {
    forall|e: int|
        0 <= e < w.n() && w.alive@[e] && #[trigger] w.positions@[e] is Some ==> m.in_bounds(
            w.positions@[e]->0.x as int,
            w.positions@[e]->0.y as int,
        )
}

/// The spatial index resolver.
pub struct MapIndexingSystem {}

impl MapIndexingSystem {
    /// Rebuild the blocked bitmap (static walls plus every blocking
    /// entity's cell) and the per-cell occupant lists. Reads the world,
    /// rewrites only `blocked` and `tile_content`.
    pub fn run(map: &mut GameMap, w: &World)
        requires
            old(map).wf(),
            w.wf(),
            positions_in_bounds(*w, *old(map)),
        ensures
            final(map).wf(),
            final(map).tiles == old(map).tiles,
            final(map).rooms == old(map).rooms,
            final(map).revealed_tiles == old(map).revealed_tiles,
            final(map).visible_tiles == old(map).visible_tiles,
            final(map).width == old(map).width,
            final(map).height == old(map).height,
            final(map).depth == old(map).depth,
            forall|idx: int|
                0 <= idx < final(map).blocked@.len() ==> final(map).blocked@[idx] == (old(
                    map,
                ).tiles@[idx] == TileType::Wall || exists|e: int|
                    0 <= e < w.n() && blocks_at(*w, *old(map), e, idx)),
            forall|idx: int|
                0 <= idx < final(map).tile_content@.len() ==> final(map).tile_content@[idx]@
                    == occupants_upto(*w, *old(map), idx, w.n()),
    {
        let ghost m0 = *old(map);
        let count = map.tiles.len();
        let n = w.alive.len();
        let mut idx: usize = 0;
        while idx < count
            invariant
                map.wf(),
                w.wf(),
                positions_in_bounds(*w, m0),
                count == map.tiles@.len(),
                n == w.n(),
                idx <= count,
                map.tiles == m0.tiles,
                map.rooms == m0.rooms,
                map.revealed_tiles == m0.revealed_tiles,
                map.visible_tiles == m0.visible_tiles,
                map.width == m0.width,
                map.height == m0.height,
                map.depth == m0.depth,
                map.blocked@.len() == m0.blocked@.len(),
                map.tile_content@.len() == m0.tile_content@.len(),
                forall|j: int|
                    0 <= j < idx ==> map.blocked@[j] == (m0.tiles@[j] == TileType::Wall
                        || exists|e: int| 0 <= e < w.n() && blocks_at(*w, m0, e, j)),
                forall|j: int|
                    0 <= j < idx ==> map.tile_content@[j]@ == occupants_upto(*w, m0, j, w.n()),
            decreases count - idx,
        {
            let mut row: Vec<usize> = Vec::new();
            let mut blocked_here: bool = map.tiles[idx] == TileType::Wall;
            let mut e: usize = 0;
            while e < n
                invariant
                    map.wf(),
                    w.wf(),
                    positions_in_bounds(*w, m0),
                    n == w.n(),
                    e <= n,
                    idx < count,
                    count == map.tiles@.len(),
                    map.tiles == m0.tiles,
                    map.width == m0.width,
                    map.height == m0.height,
                    row@ == occupants_upto(*w, m0, idx as int, e as int),
                    blocked_here == (m0.tiles@[idx as int] == TileType::Wall || exists|e2: int|
                        0 <= e2 < e && blocks_at(*w, m0, e2, idx as int)),
                decreases n - e,
            {
                let alive = w.alive[e];
                if alive {
                    match w.positions[e] {
                        Some(p) => {
                            let pidx = map.xy_idx(p.x, p.y);
                            if pidx == idx {
                                row.push(e);
                                if w.blocks_tile[e].is_some() {
                                    blocked_here = true;
                                }
                            }
                        },
                        None => {},
                    }
                }
                proof {
                    if blocks_at(*w, m0, e as int, idx as int) {
                        assert(exists|e2: int|
                            0 <= e2 < e + 1 && blocks_at(*w, m0, e2, idx as int));
                    }
                }
                e = e + 1;
            }
            map.blocked[idx] = blocked_here;
            map.tile_content[idx] = row;
            idx = idx + 1;
        }
    }
}

} // verus!
