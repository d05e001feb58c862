//! The player's own synchronous actions: moving (which doubles as melee
//! targeting), picking up, waiting, and descending. The input mapper
//! translates keys into calls of these.

use vstd::prelude::*;

use crate::components::{Point, Position, WantsToMelee, WantsToPickupItem};
use crate::gamelog::GameLog;
use crate::map::{GameMap, TileType};
use crate::world::World;

verus! {

/// The first occupant of a cell that has combat stats, if any.
pub open spec fn first_combat_occupant(w: World, occ: Seq<usize>, k: int) -> Option<usize>
    decreases k,
{
    if k <= 0 {
        Option::<usize>::None
    } else {
        let pre = first_combat_occupant(w, occ, k - 1);
        if pre is Some {
            pre
        } else if w.combat_stats@[occ[k - 1] as int] is Some {
            Some(occ[k - 1])
        } else {
            Option::<usize>::None
        }
    }
}

/// The player can act here: it stands somewhere and watches.
pub open spec fn player_mobile(w: World, player: int) -> bool {
    w.positions@[player] is Some && w.viewsheds@[player] is Some
}

/// The destination of a move attempt.
pub open spec fn move_dest_x(w: World, player: int, dx: int) -> int {
    w.positions@[player]->0.x + dx
}

/// The destination of a move attempt.
pub open spec fn move_dest_y(w: World, player: int, dy: int) -> int {
    w.positions@[player]->0.y + dy
}

/// A destination the mover may consider: inside the map with its border
/// ring excluded.
pub open spec fn dest_in_margin(m: GameMap, nx: int, ny: int) -> bool {
    1 <= nx <= m.width - 1 && 1 <= ny <= m.height - 1 && nx < m.width && ny < m.height
}

/// Attempt to move the player by one step. A destination occupied by
/// something with combat stats turns the move into a melee intent; a
/// blocked destination is ignored; otherwise the player moves, its
/// viewshed turns dirty, and the tracked player position follows.
pub fn try_move_player(
    delta_x: i32,
    delta_y: i32,
    w: &mut World,
    map: &GameMap,
    player: usize,
    ppos: &mut Point,
)
    requires
        old(w).wf(),
        map.wf(),
        player < old(w).n(),
        crate::map_indexing_system::positions_in_bounds(*old(w), *map),
        crate::inventory_system::content_valid(*map, *old(w)),
        old(w).alive@[player as int],
        -1 <= delta_x <= 1,
        -1 <= delta_y <= 1,
    ensures
        final(w).wf(),
        final(w).n() == old(w).n(),
        final(w).alive == old(w).alive,
        final(w).players == old(w).players,
        final(w).monsters == old(w).monsters,
        final(w).names == old(w).names,
        final(w).renderables == old(w).renderables,
        final(w).blocks_tile == old(w).blocks_tile,
        final(w).combat_stats == old(w).combat_stats,
        final(w).suffer_damage == old(w).suffer_damage,
        final(w).confusion == old(w).confusion,
        final(w).items == old(w).items,
        final(w).consumables == old(w).consumables,
        final(w).ranged == old(w).ranged,
        final(w).inflicts_damage == old(w).inflicts_damage,
        final(w).area_of_effect == old(w).area_of_effect,
        final(w).provides_healing == old(w).provides_healing,
        final(w).equipable == old(w).equipable,
        final(w).equipped == old(w).equipped,
        final(w).melee_bonus == old(w).melee_bonus,
        final(w).defense_bonus == old(w).defense_bonus,
        final(w).in_backpack == old(w).in_backpack,
        final(w).wants_use == old(w).wants_use,
        final(w).wants_pickup == old(w).wants_pickup,
        final(w).wants_drop == old(w).wants_drop,
        final(w).wants_remove == old(w).wants_remove,
        final(w).to_delete == old(w).to_delete,
        ({
            let pl = player as int;
            let nx = move_dest_x(*old(w), pl, delta_x as int);
            let ny = move_dest_y(*old(w), pl, delta_y as int);
            if !player_mobile(*old(w), pl) || !dest_in_margin(*map, nx, ny) {
                &&& final(w).positions == old(w).positions
                &&& final(w).viewsheds == old(w).viewsheds
                &&& final(w).wants_melee == old(w).wants_melee
                &&& *final(ppos) == *old(ppos)
            } else {
                let idx = map.spec_idx(nx, ny);
                let occ = map.tile_content@[idx]@;
                let target = first_combat_occupant(*old(w), occ, occ.len() as int);
                if target is Some {
                    &&& final(w).wants_melee@ == old(w).wants_melee@.update(
                        pl,
                        Some(WantsToMelee { target: target->0 }),
                    )
                    &&& final(w).positions == old(w).positions
                    &&& final(w).viewsheds == old(w).viewsheds
                    &&& *final(ppos) == *old(ppos)
                } else if !map.blocked@[idx] {
                    &&& final(w).positions@ == old(w).positions@.update(
                        pl,
                        Some(Position { x: nx as i32, y: ny as i32 }),
                    )
                    &&& final(w).wants_melee == old(w).wants_melee
                    &&& final(w).viewsheds@[pl] is Some
                    &&& final(w).viewsheds@[pl]->0.dirty == true
                    &&& final(w).viewsheds@[pl]->0.range == old(w).viewsheds@[pl]->0.range
                    &&& final(w).viewsheds@[pl]->0.visible_tiles == old(
                        w,
                    ).viewsheds@[pl]->0.visible_tiles
                    &&& forall|e: int|
                        0 <= e < old(w).n() && e != pl ==> final(w).viewsheds@[e] == old(
                            w,
                        ).viewsheds@[e]
                    &&& *final(ppos) == (Point { x: nx as i32, y: ny as i32 })
                } else {
                    &&& final(w).positions == old(w).positions
                    &&& final(w).viewsheds == old(w).viewsheds
                    &&& final(w).wants_melee == old(w).wants_melee
                    &&& *final(ppos) == *old(ppos)
                }
            }
        }),
{
    let (px, py) = match w.positions[player] {
        Some(p) => (p.x, p.y),
        None => {
            return ;
        },
    };
    if w.viewsheds[player].is_none() {
        return ;
    }
    proof {
        assert(w.alive@[player as int] && w.positions@[player as int] is Some);
        assert(map.in_bounds(px as int, py as int));
    }
    let nx = px + delta_x;
    let ny = py + delta_y;
    if nx < 1 || nx > map.width - 1 || ny < 1 || ny > map.height - 1 || nx >= map.width || ny
        >= map.height {
        return ;
    }
    let destination_idx = map.xy_idx(nx, ny);
    // Attack the first combat-capable occupant instead of moving.
    let occ_len = map.tile_content[destination_idx].len();
    let mut k: usize = 0;
    let ghost occ = map.tile_content@[destination_idx as int]@;
    while k < occ_len
        invariant
            w.wf(),
            map.wf(),
            *w == *old(w),
            player < w.n(),
            player_mobile(*old(w), player as int),
            nx == move_dest_x(*old(w), player as int, delta_x as int),
            ny == move_dest_y(*old(w), player as int, delta_y as int),
            dest_in_margin(*map, nx as int, ny as int),
            destination_idx == map.spec_idx(nx as int, ny as int),
            destination_idx < map.tile_content@.len(),
            occ == map.tile_content@[destination_idx as int]@,
            occ_len == occ.len(),
            k <= occ_len,
            crate::inventory_system::content_valid(*map, *w),
            first_combat_occupant(*w, occ, k as int) is None,
        decreases occ_len - k,
    {
        let potential_target = map.tile_content[destination_idx][k];
        if w.combat_stats[potential_target].is_some() {
            w.wants_melee[player] = Some(WantsToMelee { target: potential_target });
            proof {
                assert(first_combat_occupant(
                    *old(w),
                    occ,
                    k as int + 1,
                ) == Some(potential_target));
                lemma_first_combat_stable(*old(w), occ, k as int + 1, occ.len() as int);
            }
            return ;
        }
        k = k + 1;
    }
    proof {
        assert(first_combat_occupant(*old(w), occ, occ.len() as int) is None);
    }
    if !map.blocked[destination_idx] {
        w.positions[player] = Some(Position { x: nx, y: ny });
        match &mut w.viewsheds[player] {
            Some(vs) => {
                vs.dirty = true;
            },
            None => {},
        }
        ppos.x = nx;
        ppos.y = ny;
        proof {
            assert(*final(ppos) == (Point { x: nx, y: ny }));
        }
    }
}

proof fn lemma_first_combat_stable(w: World, occ: Seq<usize>, k: int, m: int)
    requires
        0 <= k <= m,
        first_combat_occupant(w, occ, k) is Some,
    ensures
        first_combat_occupant(w, occ, m) == first_combat_occupant(w, occ, k),
    decreases m - k,
{
    if k < m {
        lemma_first_combat_stable(w, occ, k + 1, m);
    }
}

/// The last item lying at `(x, y)`, if any: later entities shadow earlier
/// ones, matching the scan order of the pickup command.
pub open spec fn last_item_at(w: World, x: int, y: int, k: int) -> Option<usize>
    decreases k,
{
    if k <= 0 {
        Option::<usize>::None
    } else {
        if w.items@[k - 1] is Some && w.positions@[k - 1] is Some && w.positions@[k - 1]->0.x as int
            == x && w.positions@[k - 1]->0.y as int == y {
            Some((k - 1) as usize)
        } else {
            last_item_at(w, x, y, k - 1)
        }
    }
}

/// The pickup command: find an item under the player and queue a pickup
/// intent for it, or report that there is nothing here.
pub fn get_item(w: &mut World, log: &mut GameLog, player: usize)
    requires
        old(w).wf(),
        player < old(w).n(),
        old(w).positions@[player as int] is Some,
    ensures
        final(w).wf(),
        final(w).n() == old(w).n(),
        ({
            let pl = player as int;
            let px = old(w).positions@[pl]->0.x as int;
            let py = old(w).positions@[pl]->0.y as int;
            let found = last_item_at(*old(w), px, py, old(w).n());
            if found is Some {
                &&& final(w).wants_pickup@ == old(w).wants_pickup@.update(
                    pl,
                    Some(WantsToPickupItem { collected_by: player, item: found->0 }),
                )
                &&& final(log).entries == old(log).entries
            } else {
                &&& final(w).wants_pickup == old(w).wants_pickup
                &&& final(log).entries@.len() == old(log).entries@.len() + 1
                &&& forall|j: int|
                    0 <= j < old(log).entries@.len() ==> final(log).entries@[j] == old(
                        log,
                    ).entries@[j]
                &&& final(log).entries@.last()@ == "There is nothing here to pick up"@
            }
        }),
        final(w).alive == old(w).alive,
        final(w).players == old(w).players,
        final(w).monsters == old(w).monsters,
        final(w).names == old(w).names,
        final(w).positions == old(w).positions,
        final(w).renderables == old(w).renderables,
        final(w).blocks_tile == old(w).blocks_tile,
        final(w).combat_stats == old(w).combat_stats,
        final(w).viewsheds == old(w).viewsheds,
        final(w).suffer_damage == old(w).suffer_damage,
        final(w).confusion == old(w).confusion,
        final(w).items == old(w).items,
        final(w).consumables == old(w).consumables,
        final(w).ranged == old(w).ranged,
        final(w).inflicts_damage == old(w).inflicts_damage,
        final(w).area_of_effect == old(w).area_of_effect,
        final(w).provides_healing == old(w).provides_healing,
        final(w).equipable == old(w).equipable,
        final(w).equipped == old(w).equipped,
        final(w).melee_bonus == old(w).melee_bonus,
        final(w).defense_bonus == old(w).defense_bonus,
        final(w).in_backpack == old(w).in_backpack,
        final(w).wants_melee == old(w).wants_melee,
        final(w).wants_use == old(w).wants_use,
        final(w).wants_drop == old(w).wants_drop,
        final(w).wants_remove == old(w).wants_remove,
        final(w).to_delete == old(w).to_delete,
    {
        let (px, py) = match w.positions[player] {
            Some(p) => (p.x, p.y),
            None => {
                proof {
                    assert(false);
                }
                (0, 0)
            },
        };
        let n = w.alive.len();
        let mut target_item: Option<usize> = None;
        let mut e: usize = 0;
        while e < n
            invariant
                w.wf(),
                *w == *old(w),
                n == w.n(),
                e <= n,
                px == old(w).positions@[player as int]->0.x,
                py == old(w).positions@[player as int]->0.y,
                target_item == last_item_at(*w, px as int, py as int, e as int),
            decreases n - e,
        {
            if w.items[e].is_some() {
                match w.positions[e] {
                    Some(pos) => {
                        if pos.x == px && pos.y == py {
                            target_item = Some(e);
                        }
                    },
                    None => {},
                }
            }
            e = e + 1;
        }
        match target_item {
            None => {
                log.log(String::from_str("There is nothing here to pick up"));
                proof {
                    reveal_strlit("There is nothing here to pick up");
                }
            },
            Some(item) => {
                w.wants_pickup[player] = Some(
                    WantsToPickupItem { collected_by: player, item },
                );
            },
        }
    }

/// The descend command: report whether the player stands on the stairs;
/// when it does not, say so in the log.
pub fn try_next_level(map: &GameMap, log: &mut GameLog, player_x: i32, player_y: i32) -> (r: bool)
    requires
        map.wf(),
        map.in_bounds(player_x as int, player_y as int),
    ensures
        r == (map.tiles@[map.spec_idx(player_x as int, player_y as int)] == TileType::DownStairs),
        r ==> final(log).entries == old(log).entries,
        !r ==> {
            &&& final(log).entries@.len() == old(log).entries@.len() + 1
            &&& forall|j: int|
                0 <= j < old(log).entries@.len() ==> final(log).entries@[j] == old(
                    log,
                ).entries@[j]
            &&& final(log).entries@.last()@
                == "There is no way down to the next level from here."@
        },
{
    let player_idx = map.xy_idx(player_x, player_y);
    if map.tiles[player_idx] == TileType::DownStairs {
        true
    } else {
        log.log(String::from_str("There is no way down to the next level from here."));
        proof {
            reveal_strlit("There is no way down to the next level from here.");
        }
        false
    }
}

/// Waiting heals one point when no monster is in sight.
pub open spec fn no_monster_visible(w: World, m: GameMap, player: int) -> bool {
    forall|t: int, j: int|
        0 <= t < w.viewsheds@[player]->0.visible_tiles@.len() && 0 <= j < m.tile_content@[m.spec_idx(
            #[trigger] w.viewsheds@[player]->0.visible_tiles@[t].x as int,
            w.viewsheds@[player]->0.visible_tiles@[t].y as int,
        )]@.len() ==> w.monsters@[#[trigger] m.tile_content@[m.spec_idx(
            w.viewsheds@[player]->0.visible_tiles@[t].x as int,
            w.viewsheds@[player]->0.visible_tiles@[t].y as int,
        )]@[j] as int] is None
}

/// The wait command: when no monster stands on any tile the player sees,
/// heal the player by one point, capped at max health.
pub fn skip_turn(w: &mut World, map: &GameMap, player: usize)
    requires
        old(w).wf(),
        map.wf(),
        player < old(w).n(),
        old(w).viewsheds@[player as int] is Some,
        old(w).combat_stats@[player as int] is Some,
        forall|t: int|
            0 <= t < old(w).viewsheds@[player as int]->0.visible_tiles@.len() ==> map.in_bounds(
                #[trigger] old(w).viewsheds@[player as int]->0.visible_tiles@[t].x as int,
                old(w).viewsheds@[player as int]->0.visible_tiles@[t].y as int,
            ),
        crate::inventory_system::content_valid(*map, *old(w)),
        old(w).combat_stats@[player as int]->0.hp < i32::MAX,
    ensures
        final(w).wf(),
        final(w).n() == old(w).n(),
        final(w).alive == old(w).alive,
        final(w).players == old(w).players,
        final(w).monsters == old(w).monsters,
        final(w).names == old(w).names,
        final(w).positions == old(w).positions,
        final(w).renderables == old(w).renderables,
        final(w).blocks_tile == old(w).blocks_tile,
        final(w).viewsheds == old(w).viewsheds,
        final(w).suffer_damage == old(w).suffer_damage,
        final(w).confusion == old(w).confusion,
        final(w).items == old(w).items,
        final(w).consumables == old(w).consumables,
        final(w).ranged == old(w).ranged,
        final(w).inflicts_damage == old(w).inflicts_damage,
        final(w).area_of_effect == old(w).area_of_effect,
        final(w).provides_healing == old(w).provides_healing,
        final(w).equipable == old(w).equipable,
        final(w).equipped == old(w).equipped,
        final(w).melee_bonus == old(w).melee_bonus,
        final(w).defense_bonus == old(w).defense_bonus,
        final(w).in_backpack == old(w).in_backpack,
        final(w).wants_melee == old(w).wants_melee,
        final(w).wants_use == old(w).wants_use,
        final(w).wants_pickup == old(w).wants_pickup,
        final(w).wants_drop == old(w).wants_drop,
        final(w).wants_remove == old(w).wants_remove,
        final(w).to_delete == old(w).to_delete,
        ({
            let pl = player as int;
            let stats = old(w).combat_stats@[pl]->0;
            if no_monster_visible(*old(w), *map, pl) {
                final(w).combat_stats@ == old(w).combat_stats@.update(
                    pl,
                    Some(
                        crate::components::CombatStats {
                            max_hp: stats.max_hp,
                            hp: (if stats.hp + 1 < stats.max_hp {
                                stats.hp + 1
                            } else {
                                stats.max_hp as int
                            }) as i32,
                            defense: stats.defense,
                            power: stats.power,
                        },
                    ),
                )
            } else {
                final(w).combat_stats == old(w).combat_stats
            }
        }),
{
    let vt_len = match &w.viewsheds[player] {
        Some(vs) => vs.visible_tiles.len(),
        None => {
            proof {
                assert(false);
            }
            0
        },
    };
    let mut can_heal = true;
    let mut t: usize = 0;
    while t < vt_len
        invariant
            w.wf(),
            map.wf(),
            *w == *old(w),
            player < w.n(),
            w.viewsheds@[player as int] is Some,
            vt_len == w.viewsheds@[player as int]->0.visible_tiles@.len(),
            t <= vt_len,
            forall|t2: int|
                0 <= t2 < vt_len ==> map.in_bounds(
                    #[trigger] w.viewsheds@[player as int]->0.visible_tiles@[t2].x as int,
                    w.viewsheds@[player as int]->0.visible_tiles@[t2].y as int,
                ),
            crate::inventory_system::content_valid(*map, *w),
            can_heal == (forall|t2: int, j: int|
                0 <= t2 < t && 0 <= j < map.tile_content@[map.spec_idx(
                    #[trigger] w.viewsheds@[player as int]->0.visible_tiles@[t2].x as int,
                    w.viewsheds@[player as int]->0.visible_tiles@[t2].y as int,
                )]@.len() ==> w.monsters@[#[trigger] map.tile_content@[map.spec_idx(
                    w.viewsheds@[player as int]->0.visible_tiles@[t2].x as int,
                    w.viewsheds@[player as int]->0.visible_tiles@[t2].y as int,
                )]@[j] as int] is None),
        decreases vt_len - t,
    {
        let (tx, ty) = match &w.viewsheds[player] {
            Some(vs) => (vs.visible_tiles[t].x, vs.visible_tiles[t].y),
            None => {
                proof {
                    assert(false);
                }
                (0, 0)
            },
        };
        let idx = map.xy_idx(tx, ty);
        let m = map.tile_content[idx].len();
        let mut j: usize = 0;
        let ghost can_heal_pre = can_heal;
        while j < m
            invariant
                w.wf(),
                map.wf(),
                player < w.n(),
                idx < map.tile_content@.len(),
                m == map.tile_content@[idx as int]@.len(),
                j <= m,
                crate::inventory_system::content_valid(*map, *w),
                can_heal == (can_heal_pre && (forall|j2: int|
                    0 <= j2 < j ==> w.monsters@[#[trigger] map.tile_content@[idx as int]@[j2] as int]
                        is None)),
            decreases m - j,
        {
            let entity_id = map.tile_content[idx][j];
            if w.monsters[entity_id].is_some() {
                can_heal = false;
            }
            j = j + 1;
        }
        t = t + 1;
    }
    if can_heal {
        match w.combat_stats[player] {
            Some(stats) => {
                let new_hp: i32 = if stats.hp + 1 < stats.max_hp {
                    stats.hp + 1
                } else {
                    stats.max_hp
                };
                w.combat_stats[player] = Some(
                    crate::components::CombatStats {
                        max_hp: stats.max_hp,
                        hp: new_hp,
                        defense: stats.defense,
                        power: stats.power,
                    },
                );
            },
            None => {
                proof {
                    assert(false);
                }
            },
        }
    }
}

} // verus!
