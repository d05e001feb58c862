//! The visibility engine: recomputes each dirty viewer's visible-tile set
//! by a field-of-view sweep bounded by sight range and clipped to the map,
//! and lets the player viewer drive the map's fog-of-war arrays.
//!
//! A tile is visible when it is on the map, within Euclidean range of the
//! viewer, and the discrete line walked from the viewer toward it crosses
//! no opaque cell strictly before it.

use vstd::prelude::*;

use crate::components::{Point, Viewshed};
use crate::map::GameMap;
use crate::map_indexing_system::positions_in_bounds;
use crate::world::World;

verus! {

/// Direction of one axis step toward a target.
pub open spec fn sign(d: int) -> int {
    if d > 0 {
        1
    } else if d < 0 {
        -1
    } else {
        0
    }
}

/// Absolute value.
pub open spec fn iabs(x: int) -> int {
    if x < 0 {
        -x
    } else {
        x
    }
}

/// Chessboard distance between two cells.
pub open spec fn chebyshev(x: int, y: int, tx: int, ty: int) -> int {
    if iabs(x - tx) > iabs(y - ty) {
        iabs(x - tx)
    } else {
        iabs(y - ty)
    }
}

/// The discrete sight line from `(x, y)` to `(tx, ty)` steps one cell at a
/// time, diagonally while both axes differ. The line is clear when no cell
/// strictly between the endpoints is opaque; the target cell itself may be
/// opaque (walls are seen).
pub open spec fn los_clear(m: GameMap, x: int, y: int, tx: int, ty: int) -> bool
    decreases chebyshev(x, y, tx, ty),
{
    if x == tx && y == ty {
        true
    } else {
        let nx = x + sign(tx - x);
        let ny = y + sign(ty - y);
        if nx == tx && ny == ty {
            true
        } else {
            !m.opaque_at(nx, ny) && los_clear(m, nx, ny, tx, ty)
        }
    }
}

/// A viewer at `(ox, oy)` with the given sight range sees cell `(tx, ty)`:
/// on the map, within Euclidean range, and with a clear line of sight.
pub open spec fn tile_visible(m: GameMap, ox: int, oy: int, range: int, tx: int, ty: int) -> bool {
    &&& m.in_bounds(tx, ty)
    &&& (tx - ox) * (tx - ox) + (ty - oy) * (ty - oy) <= range * range
    &&& los_clear(m, ox, oy, tx, ty)
}

/// First column of the sweep box: the range square clipped to the map.
pub open spec fn box_x_lo(m: GameMap, ox: int, range: int) -> int {
    if ox - range > 0 {
        ox - range
    } else {
        0
    }
}

/// Last column (inclusive) of the sweep box.
pub open spec fn box_x_hi(m: GameMap, ox: int, range: int) -> int {
    if ox + range < m.width as int - 1 {
        ox + range
    } else {
        m.width as int - 1
    }
}

/// First row of the sweep box.
pub open spec fn box_y_lo(m: GameMap, oy: int, range: int) -> int {
    if oy - range > 0 {
        oy - range
    } else {
        0
    }
}

/// Last row (inclusive) of the sweep box.
pub open spec fn box_y_hi(m: GameMap, oy: int, range: int) -> int {
    if oy + range < m.height as int - 1 {
        oy + range
    } else {
        m.height as int - 1
    }
}

/// Visible cells of row `ty` among the first `k` columns of the sweep box,
/// in column order.
pub open spec fn fov_row(m: GameMap, ox: int, oy: int, range: int, ty: int, k: int) -> Seq<Point>
    decreases k,
{
    if k <= 0 {
        Seq::<Point>::empty()
    } else {
        let pre = fov_row(m, ox, oy, range, ty, k - 1);
        let tx = box_x_lo(m, ox, range) + (k - 1);
        if tile_visible(m, ox, oy, range, tx, ty) {
            pre.push(Point { x: tx as i32, y: ty as i32 })
        } else {
            pre
        }
    }
}

/// Visible cells of the first `j` rows of the sweep box, row by row.
pub open spec fn fov_rows(m: GameMap, ox: int, oy: int, range: int, j: int) -> Seq<Point>
    decreases j,
{
    if j <= 0 {
        Seq::<Point>::empty()
    } else {
        fov_rows(m, ox, oy, range, j - 1) + fov_row(
            m,
            ox,
            oy,
            range,
            box_y_lo(m, oy, range) + (j - 1),
            box_x_hi(m, ox, range) - box_x_lo(m, ox, range) + 1,
        )
    }
}

/// All cells visible from `(ox, oy)` at the given range, swept row-major
/// over the clipped range box.
pub open spec fn fov_tiles(m: GameMap, ox: int, oy: int, range: int) -> Seq<Point> {
    fov_rows(m, ox, oy, range, box_y_hi(m, oy, range) - box_y_lo(m, oy, range) + 1)
}

/// Whether the viewer at `(ox, oy)` sees flat cell `idx`.
pub open spec fn cell_visible_from(m: GameMap, ox: int, oy: int, range: int, idx: int) -> bool {
    tile_visible(m, ox, oy, range, idx % (m.width as int), idx / (m.width as int))
}

proof fn lemma_fov_row_contains(m: GameMap, ox: int, oy: int, range: int, ty: int, k: int, p: Point)
    ensures
        fov_row(m, ox, oy, range, ty, k).contains(p) <==> (exists|tx: int|
            box_x_lo(m, ox, range) <= tx < box_x_lo(m, ox, range) + k && p == (Point {
                x: tx as i32,
                y: ty as i32,
            }) && tile_visible(m, ox, oy, range, tx, ty)),
    decreases k,
{
    if k <= 0 {
        assert(fov_row(m, ox, oy, range, ty, k).len() == 0);
    } else {
        lemma_fov_row_contains(m, ox, oy, range, ty, k - 1, p);
        let pre = fov_row(m, ox, oy, range, ty, k - 1);
        let tx = box_x_lo(m, ox, range) + (k - 1);
        if tile_visible(m, ox, oy, range, tx, ty) {
            let cur = pre.push(Point { x: tx as i32, y: ty as i32 });
            assert(forall|q: Point| cur.contains(q) <==> pre.contains(q) || q == (Point {
                x: tx as i32,
                y: ty as i32,
            })) by {
                assert(forall|q: Point| #[trigger] pre.contains(q) ==> cur.contains(q)) by {
                    assert(forall|j: int|
                        0 <= j < pre.len() ==> cur[j] == #[trigger] pre[j]);
                }
                assert(cur[cur.len() - 1] == (Point { x: tx as i32, y: ty as i32 }));
            }
        }
    }
}

proof fn lemma_fov_rows_contains(m: GameMap, ox: int, oy: int, range: int, j: int, p: Point)
    ensures
        fov_rows(m, ox, oy, range, j).contains(p) <==> (exists|ty: int|
            box_y_lo(m, oy, range) <= ty < box_y_lo(m, oy, range) + j && #[trigger] fov_row(
                m,
                ox,
                oy,
                range,
                ty,
                box_x_hi(m, ox, range) - box_x_lo(m, ox, range) + 1,
            ).contains(p)),
    decreases j,
{
    if j <= 0 {
        assert(fov_rows(m, ox, oy, range, j).len() == 0);
    } else {
        lemma_fov_rows_contains(m, ox, oy, range, j - 1, p);
        let pre = fov_rows(m, ox, oy, range, j - 1);
        let ty = box_y_lo(m, oy, range) + (j - 1);
        let row = fov_row(m, ox, oy, range, ty, box_x_hi(m, ox, range) - box_x_lo(m, ox, range) + 1);
        let cur = pre + row;
        assert(forall|q: Point| cur.contains(q) <==> pre.contains(q) || row.contains(q)) by {
            assert(forall|i: int| 0 <= i < pre.len() ==> cur[i] == #[trigger] pre[i]);
            assert(forall|i: int|
                0 <= i < row.len() ==> cur[pre.len() + i] == #[trigger] row[i]);
            assert(forall|i: int|
                0 <= i < cur.len() && i < pre.len() ==> #[trigger] cur[i] == pre[i]);
            assert(forall|i: int|
                pre.len() <= i < cur.len() ==> #[trigger] cur[i] == row[i - pre.len()]);
        }
    }
}

/// What membership in the sweep means: exactly the visible tiles.
pub proof fn lemma_fov_tiles_contains(m: GameMap, ox: int, oy: int, range: int, p: Point)
    requires
        m.wf(),
        0 <= range,
    ensures
        fov_tiles(m, ox, oy, range).contains(p) <==> tile_visible(
            m,
            ox,
            oy,
            range,
            p.x as int,
            p.y as int,
        ),
{
    let jmax = box_y_hi(m, oy, range) - box_y_lo(m, oy, range) + 1;
    let kmax = box_x_hi(m, ox, range) - box_x_lo(m, ox, range) + 1;
    lemma_fov_rows_contains(m, ox, oy, range, jmax, p);
    assert forall|ty: int|
        box_y_lo(m, oy, range) <= ty < box_y_lo(m, oy, range) + jmax implies (fov_row(
        m,
        ox,
        oy,
        range,
        ty,
        kmax,
    ).contains(p) <==> (exists|tx: int|
        box_x_lo(m, ox, range) <= tx < box_x_lo(m, ox, range) + kmax && p == (Point {
            x: tx as i32,
            y: ty as i32,
        }) && tile_visible(m, ox, oy, range, tx, ty))) by {
        lemma_fov_row_contains(m, ox, oy, range, ty, kmax, p);
    }
    if tile_visible(m, ox, oy, range, p.x as int, p.y as int) {
        let px = p.x as int;
        let py = p.y as int;
        assert(0 <= px < m.width as int && 0 <= py < m.height as int);
        assert((px - ox) * (px - ox) + (py - oy) * (py - oy) <= range * range);
        assert(iabs(px - ox) <= range && iabs(py - oy) <= range) by (nonlinear_arith)
            requires
                0 <= range,
                (px - ox) * (px - ox) + (py - oy) * (py - oy) <= range * range,
        ;
        assert(box_x_lo(m, ox, range) <= px < box_x_lo(m, ox, range) + kmax);
        assert(box_y_lo(m, oy, range) <= py < box_y_lo(m, oy, range) + jmax);
        assert(p == (Point { x: px as i32, y: py as i32 }));
        lemma_fov_row_contains(m, ox, oy, range, py, kmax, p);
    }
}

/// Law: for a fixed viewer and map, a larger sight range never shrinks
/// the visible-tile set.
pub proof fn lemma_fov_monotonic(m: GameMap, ox: int, oy: int, r1: int, r2: int, p: Point)
    requires
        m.wf(),
        0 <= r1 <= r2,
        fov_tiles(m, ox, oy, r1).contains(p),
    ensures
        fov_tiles(m, ox, oy, r2).contains(p),
{
    lemma_fov_tiles_contains(m, ox, oy, r1, p);
    lemma_fov_tiles_contains(m, ox, oy, r2, p);
    assert(r1 * r1 <= r2 * r2) by (nonlinear_arith)
        requires
            0 <= r1 <= r2,
    ;
}

/// Walk the discrete sight line and report whether it is clear.
pub fn line_clear(map: &GameMap, ox: i32, oy: i32, tx: i32, ty: i32) -> (b: bool)
    requires
        map.wf(),
        map.in_bounds(ox as int, oy as int),
        map.in_bounds(tx as int, ty as int),
    ensures
        b == los_clear(*map, ox as int, oy as int, tx as int, ty as int),
{
    let mut x = ox;
    let mut y = oy;
    loop
        invariant
            map.wf(),
            map.in_bounds(x as int, y as int),
            map.in_bounds(tx as int, ty as int),
            los_clear(*map, ox as int, oy as int, tx as int, ty as int) == los_clear(
                *map,
                x as int,
                y as int,
                tx as int,
                ty as int,
            ),
        decreases chebyshev(x as int, y as int, tx as int, ty as int),
    {
        if x == tx && y == ty {
            return true;
        }
        let nx = if tx > x {
            x + 1
        } else if tx < x {
            x - 1
        } else {
            x
        };
        let ny = if ty > y {
            y + 1
        } else if ty < y {
            y - 1
        } else {
            y
        };
        if nx == tx && ny == ty {
            return true;
        }
        if map.is_opaque(nx, ny) {
            return false;
        }
        x = nx;
        y = ny;
    }
}

/// Compute every cell visible from `(ox, oy)` within `range`, in row-major
/// sweep order.
pub fn field_of_view(map: &GameMap, ox: i32, oy: i32, range: i32) -> (r: Vec<Point>)
    requires
        map.wf(),
        map.in_bounds(ox as int, oy as int),
        range >= 0,
    ensures
        r@ == fov_tiles(*map, ox as int, oy as int, range as int),
{
    let mut r: Vec<Point> = Vec::new();
    let y_lo: i64 = if (oy as i64) - (range as i64) > 0 {
        (oy as i64) - (range as i64)
    } else {
        0
    };
    let y_hi: i64 = if (oy as i64) + (range as i64) < (map.height as i64) - 1 {
        (oy as i64) + (range as i64)
    } else {
        (map.height as i64) - 1
    };
    let x_lo: i64 = if (ox as i64) - (range as i64) > 0 {
        (ox as i64) - (range as i64)
    } else {
        0
    };
    let x_hi: i64 = if (ox as i64) + (range as i64) < (map.width as i64) - 1 {
        (ox as i64) + (range as i64)
    } else {
        (map.width as i64) - 1
    };
    let mut ty: i64 = y_lo;
    while ty <= y_hi
        invariant
            map.wf(),
            map.in_bounds(ox as int, oy as int),
            range >= 0,
            y_lo == box_y_lo(*map, oy as int, range as int),
            y_hi == box_y_hi(*map, oy as int, range as int),
            x_lo == box_x_lo(*map, ox as int, range as int),
            x_hi == box_x_hi(*map, ox as int, range as int),
            y_lo <= ty,
            ty <= y_hi + 1,
            r@ == fov_rows(*map, ox as int, oy as int, range as int, ty - y_lo),
        decreases y_hi - ty + 1,
    {
        let mut tx: i64 = x_lo;
        while tx <= x_hi
            invariant
                map.wf(),
                map.in_bounds(ox as int, oy as int),
                range >= 0,
                y_lo == box_y_lo(*map, oy as int, range as int),
                y_hi == box_y_hi(*map, oy as int, range as int),
                x_lo == box_x_lo(*map, ox as int, range as int),
                x_hi == box_x_hi(*map, ox as int, range as int),
                y_lo <= ty <= y_hi,
                x_lo <= tx,
                tx <= x_hi + 1,
                r@ == fov_rows(*map, ox as int, oy as int, range as int, ty - y_lo) + fov_row(
                    *map,
                    ox as int,
                    oy as int,
                    range as int,
                    ty as int,
                    tx - x_lo,
                ),
            decreases x_hi - tx + 1,
        {
            let txi: i32 = tx as i32;
            let tyi: i32 = ty as i32;
            let dx: i64 = tx - (ox as i64);
            let dy: i64 = ty - (oy as i64);
            proof {
                let r = range as int;
                assert(-r <= dx as int <= r && -r <= dy as int <= r);
                assert(0 <= dx as int * dx as int <= r * r && 0 <= dy as int * dy as int <= r * r)
                    by (nonlinear_arith)
                    requires
                        -r <= dx as int <= r,
                        -r <= dy as int <= r,
                ;
                assert(r * r <= 0x7fffffff * 0x7fffffff) by (nonlinear_arith)
                    requires
                        0 <= r <= 0x7fffffff,
                ;
            }
            let in_range: bool = dx * dx + dy * dy <= (range as i64) * (range as i64);
            if in_range {
                if line_clear(map, ox, oy, txi, tyi) {
                    r.push(Point { x: txi, y: tyi });
                }
            }
            proof {
                assert(fov_row(
                    *map,
                    ox as int,
                    oy as int,
                    range as int,
                    ty as int,
                    tx - x_lo + 1,
                ) == if tile_visible(*map, ox as int, oy as int, range as int, tx as int, ty as int) {
                    fov_row(*map, ox as int, oy as int, range as int, ty as int, tx - x_lo).push(
                        Point { x: tx as i32, y: ty as i32 },
                    )
                } else {
                    fov_row(*map, ox as int, oy as int, range as int, ty as int, tx - x_lo)
                });
            }
            tx = tx + 1;
        }
        proof {
            assert(fov_rows(*map, ox as int, oy as int, range as int, ty - y_lo + 1) == fov_rows(
                *map,
                ox as int,
                oy as int,
                range as int,
                ty - y_lo,
            ) + fov_row(
                *map,
                ox as int,
                oy as int,
                range as int,
                ty as int,
                x_hi - x_lo + 1,
            ));
        }
        ty = ty + 1;
    }
    r
}

/// Every attached viewshed has a non-negative sight range.
pub open spec fn viewsheds_wf(w: World) -> bool {
    forall|e: int|
        0 <= e < w.n() && #[trigger] w.viewsheds@[e] is Some ==> w.viewsheds@[e]->0.range >= 0
}

/// `player` is the one entity carrying the player marker.
pub open spec fn unique_player(w: World, player: int) -> bool {
    forall|e: int| 0 <= e < w.n() ==> (#[trigger] w.players@[e] is Some <==> e == player)
}

/// Entity `e` is due for recomputation: alive, with a viewshed marked
/// dirty, and standing somewhere.
pub open spec fn dirty_viewer(w: World, e: int) -> bool {
    &&& w.alive@[e]
    &&& w.viewsheds@[e] is Some
    &&& w.viewsheds@[e]->0.dirty
    &&& w.positions@[e] is Some
}

/// The visibility resolver.
pub struct VisibilitySystem {}

impl VisibilitySystem {
    /// Recompute every dirty viewer's visible-tile set and clear its dirty
    /// flag; skip viewers that are not dirty. When the player viewer was
    /// dirty, additionally mark its visible cells' sticky revealed flags
    /// and rewrite the transient current-visible array to exactly the
    /// player's visible set.
    pub fn run(w: &mut World, map: &mut GameMap, player: usize)
        requires
            old(w).wf(),
            old(map).wf(),
            player < old(w).n(),
            positions_in_bounds(*old(w), *old(map)),
            viewsheds_wf(*old(w)),
            unique_player(*old(w), player as int),
        ensures
            final(w).wf(),
            final(map).wf(),
            final(w).n() == old(w).n(),
            final(w).alive == old(w).alive,
            final(w).players == old(w).players,
            final(w).monsters == old(w).monsters,
            final(w).names == old(w).names,
            final(w).positions == old(w).positions,
            final(w).renderables == old(w).renderables,
            final(w).blocks_tile == old(w).blocks_tile,
            final(w).combat_stats == old(w).combat_stats,
            final(w).suffer_damage == old(w).suffer_damage,
            final(w).confusion == old(w).confusion,
            final(w).items == old(w).items,
            final(w).consumables == old(w).consumables,
            final(w).ranged == old(w).ranged,
            final(w).inflicts_damage == old(w).inflicts_damage,
            final(w).area_of_effect == old(w).area_of_effect,
            final(w).provides_healing == old(w).provides_healing,
            final(w).equipable == old(w).equipable,
            final(w).equipped == old(w).equipped,
            final(w).melee_bonus == old(w).melee_bonus,
            final(w).defense_bonus == old(w).defense_bonus,
            final(w).in_backpack == old(w).in_backpack,
            final(w).wants_melee == old(w).wants_melee,
            final(w).wants_use == old(w).wants_use,
            final(w).wants_pickup == old(w).wants_pickup,
            final(w).wants_drop == old(w).wants_drop,
            final(w).wants_remove == old(w).wants_remove,
            final(w).to_delete == old(w).to_delete,
            forall|e: int|
                0 <= e < old(w).n() && dirty_viewer(*old(w), e) ==> {
                    &&& #[trigger] final(w).viewsheds@[e] is Some
                    &&& final(w).viewsheds@[e]->0.visible_tiles@ == fov_tiles(
                        *old(map),
                        old(w).positions@[e]->0.x as int,
                        old(w).positions@[e]->0.y as int,
                        old(w).viewsheds@[e]->0.range as int,
                    )
                    &&& final(w).viewsheds@[e]->0.range == old(w).viewsheds@[e]->0.range
                    &&& final(w).viewsheds@[e]->0.dirty == false
                },
            forall|e: int|
                0 <= e < old(w).n() && !dirty_viewer(*old(w), e) ==> #[trigger] final(w).viewsheds@[e]
                    == old(w).viewsheds@[e],
            final(map).tiles == old(map).tiles,
            final(map).rooms == old(map).rooms,
            final(map).blocked == old(map).blocked,
            final(map).tile_content == old(map).tile_content,
            final(map).width == old(map).width,
            final(map).height == old(map).height,
            final(map).depth == old(map).depth,
            dirty_viewer(*old(w), player as int) ==> forall|idx: int|
                0 <= idx < old(map).tiles@.len() ==> {
                    &&& final(map).visible_tiles@[idx] == cell_visible_from(
                        *old(map),
                        old(w).positions@[player as int]->0.x as int,
                        old(w).positions@[player as int]->0.y as int,
                        old(w).viewsheds@[player as int]->0.range as int,
                        idx,
                    )
                    &&& final(map).revealed_tiles@[idx] == (old(map).revealed_tiles@[idx]
                        || cell_visible_from(
                        *old(map),
                        old(w).positions@[player as int]->0.x as int,
                        old(w).positions@[player as int]->0.y as int,
                        old(w).viewsheds@[player as int]->0.range as int,
                        idx,
                    ))
                },
            !dirty_viewer(*old(w), player as int) ==> final(map).visible_tiles == old(
                map,
            ).visible_tiles && final(map).revealed_tiles == old(map).revealed_tiles,
    {
        let ghost w0 = *w;
        let ghost m0 = *map;
        let n = w.alive.len();

        // Record up front whether the player viewer is due, and from where
        // it looks; the first pass clears the dirty flag.
        let mut player_dirty = false;
        let mut ppx: i32 = 0;
        let mut ppy: i32 = 0;
        let mut pr: i32 = 0;
        if w.alive[player] {
            match &w.viewsheds[player] {
                Some(vs) => {
                    if vs.dirty {
                        let r0 = vs.range;
                        match w.positions[player] {
                            Some(p) => {
                                player_dirty = true;
                                ppx = p.x;
                                ppy = p.y;
                                pr = r0;
                            },
                            None => {},
                        }
                    }
                },
                None => {},
            }
        }
        proof {
            assert(player_dirty == dirty_viewer(w0, player as int));
        }

        // First pass: recompute each dirty viewer's visible-tile set.
        let mut e: usize = 0;
        while e < n
            invariant
                w.wf(),
                map.wf(),
                *map == m0,
                n == w.n(),
                w0.wf(),
                e <= n,
                w.n() == w0.n(),
                positions_in_bounds(w0, m0),
                viewsheds_wf(w0),
                w.alive == w0.alive,
                w.players == w0.players,
                w.monsters == w0.monsters,
                w.names == w0.names,
                w.positions == w0.positions,
                w.renderables == w0.renderables,
                w.blocks_tile == w0.blocks_tile,
                w.combat_stats == w0.combat_stats,
                w.suffer_damage == w0.suffer_damage,
                w.confusion == w0.confusion,
                w.items == w0.items,
                w.consumables == w0.consumables,
                w.ranged == w0.ranged,
                w.inflicts_damage == w0.inflicts_damage,
                w.area_of_effect == w0.area_of_effect,
                w.provides_healing == w0.provides_healing,
                w.equipable == w0.equipable,
                w.equipped == w0.equipped,
                w.melee_bonus == w0.melee_bonus,
                w.defense_bonus == w0.defense_bonus,
                w.in_backpack == w0.in_backpack,
                w.wants_melee == w0.wants_melee,
                w.wants_use == w0.wants_use,
                w.wants_pickup == w0.wants_pickup,
                w.wants_drop == w0.wants_drop,
                w.wants_remove == w0.wants_remove,
                w.to_delete == w0.to_delete,
                forall|e2: int|
                    0 <= e2 < w0.n() && e2 < e && dirty_viewer(w0, e2) ==> {
                        &&& #[trigger] w.viewsheds@[e2] is Some
                        &&& w.viewsheds@[e2]->0.visible_tiles@ == fov_tiles(
                            m0,
                            w0.positions@[e2]->0.x as int,
                            w0.positions@[e2]->0.y as int,
                            w0.viewsheds@[e2]->0.range as int,
                        )
                        &&& w.viewsheds@[e2]->0.range == w0.viewsheds@[e2]->0.range
                        &&& w.viewsheds@[e2]->0.dirty == false
                    },
                forall|e2: int|
                    0 <= e2 < w0.n() && (e2 >= e || !dirty_viewer(w0, e2)) ==> #[trigger] w.viewsheds@[e2]
                        == w0.viewsheds@[e2],
            decreases n - e,
        {
            let mut do_update = false;
            let mut r: i32 = 0;
            if w.alive[e] {
                match &w.viewsheds[e] {
                    Some(vs) => {
                        if vs.dirty {
                            do_update = true;
                            r = vs.range;
                        }
                    },
                    None => {},
                }
            }
            proof {
                assert(w.viewsheds@[e as int] == w0.viewsheds@[e as int]);
                assert(w.positions@[e as int] == w0.positions@[e as int]);
            }
            if do_update {
                match w.positions[e] {
                    Some(p) => {
                        proof {
                            assert(dirty_viewer(w0, e as int));
                            assert(w0.viewsheds@[e as int] is Some);
                            assert(r == w0.viewsheds@[e as int]->0.range);
                            assert(r >= 0);
                            assert(m0.in_bounds(p.x as int, p.y as int));
                        }
                        let fv = field_of_view(map, p.x, p.y, r);
                        w.viewsheds[e] = Some(
                            Viewshed { visible_tiles: fv, range: r, dirty: false },
                        );
                    },
                    None => {},
                }
            }
            e = e + 1;
        }

        // Second pass: when the player was a dirty viewer, rebuild the
        // map's fog arrays from the player's point of view.
        if player_dirty {
            let count = map.visible_tiles.len();
            let wdt = map.width as usize;
            let mut vis_new: Vec<bool> = Vec::new();
            let mut idx: usize = 0;
            while idx < count
                invariant
                    map.wf(),
                    *map == m0,
                    map.in_bounds(ppx as int, ppy as int),
                    pr >= 0,
                    count == map.tiles@.len(),
                    wdt == map.width as usize,
                    idx <= count,
                    vis_new@.len() == idx,
                    forall|i: int|
                        0 <= i < idx ==> vis_new@[i] == cell_visible_from(
                            m0,
                            ppx as int,
                            ppy as int,
                            pr as int,
                            i,
                        ),
                decreases count - idx,
            {
                let x = idx % wdt;
                let y = idx / wdt;
                proof {
                    let wi = map.width as int;
                    let hi = map.height as int;
                    assert(0 <= idx as int % wi < wi) by (nonlinear_arith)
                        requires
                            wi >= 1,
                            idx >= 0,
                    ;
                    assert(idx as int / wi < hi) by (nonlinear_arith)
                        requires
                            wi >= 1,
                            0 <= idx as int,
                            (idx as int) < wi * hi,
                    ;
                    assert(0 <= idx as int / wi) by (nonlinear_arith)
                        requires
                            wi >= 1,
                            0 <= idx as int,
                    ;
                }
                let xi = x as i32;
                let yi = y as i32;
                let dx: i64 = (xi as i64) - (ppx as i64);
                let dy: i64 = (yi as i64) - (ppy as i64);
                proof {
                    let b = 0x7fffffffint;
                    assert(-b <= dx as int <= b && -b <= dy as int <= b);
                    assert(0 <= dx as int * dx as int <= b * b && 0 <= dy as int * dy as int <= b
                        * b) by (nonlinear_arith)
                        requires
                            -b <= dx as int <= b,
                            -b <= dy as int <= b,
                    ;
                    assert(0 <= pr as int * pr as int <= b * b) by (nonlinear_arith)
                        requires
                            0 <= pr as int <= b,
                    ;
                }
                let in_range: bool = dx * dx + dy * dy <= (pr as i64) * (pr as i64);
                let test: bool = in_range && line_clear(map, ppx, ppy, xi, yi);
                vis_new.push(test);
                idx = idx + 1;
            }
            map.visible_tiles = vis_new;
            let mut i2: usize = 0;
            while i2 < count
                invariant
                    map.wf(),
                    count == map.tiles@.len(),
                    i2 <= count,
                    map.tiles == m0.tiles,
                    map.rooms == m0.rooms,
                    map.blocked == m0.blocked,
                    map.tile_content == m0.tile_content,
                    map.width == m0.width,
                    map.height == m0.height,
                    map.depth == m0.depth,
                    map.visible_tiles@.len() == count,
                    forall|i: int|
                        0 <= i < count ==> map.visible_tiles@[i] == cell_visible_from(
                            m0,
                            ppx as int,
                            ppy as int,
                            pr as int,
                            i,
                        ),
                    forall|i: int|
                        0 <= i < count ==> #[trigger] map.revealed_tiles@[i] == (
                        m0.revealed_tiles@[i] || (i < i2 && cell_visible_from(
                            m0,
                            ppx as int,
                            ppy as int,
                            pr as int,
                            i,
                        ))),
                decreases count - i2,
            {
                if map.visible_tiles[i2] {
                    map.revealed_tiles[i2] = true;
                }
                i2 = i2 + 1;
            }
        }
    }
}

} // verus!
