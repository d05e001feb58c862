//! The AI decision step, run only during the monster turn. Each monster
//! either sits out a confusion turn, attacks an adjacent player, paths
//! toward a visible player, or holds position.
//!
//! Adjacency uses a Euclidean comparison (distance
//! below one and a half cells), which on the grid is exactly the
//! eight-neighborhood.

use vstd::prelude::*;

use crate::components::{Confusion, Point, Position, WantsToMelee};
use crate::map::GameMap;
use crate::map_indexing_system::positions_in_bounds;
use crate::world::World;

verus! {

/// Entity `e` takes an AI turn: a live monster that stands somewhere and
/// sees.
pub open spec fn monster_acts(w: World, e: int) -> bool {
    &&& w.alive@[e]
    &&& w.monsters@[e] is Some
    &&& w.viewsheds@[e] is Some
    &&& w.positions@[e] is Some
}

/// The actor is within striking distance of the player: Euclidean
/// distance below one and a half cells, i.e. a king's move.
pub open spec fn adjacent_to_player(w: World, e: int, ppos: Point) -> bool {
    let dx = w.positions@[e]->0.x - ppos.x;
    let dy = w.positions@[e]->0.y - ppos.y;
    dx * dx + dy * dy <= 2
}

/// The player's cell is in the actor's current visible-tile set.
pub open spec fn player_visible(w: World, e: int, ppos: Point) -> bool {
    w.viewsheds@[e]->0.visible_tiles@.contains(Point { x: ppos.x, y: ppos.y })
}

/// Entity `e` takes the pathing branch this turn: an unconfused acting
/// monster, not adjacent, with the player's cell in sight.
pub open spec fn takes_path(w: World, e: int, ppos: Point) -> bool {
    &&& monster_acts(w, e)
    &&& w.confusion@[e] is None
    &&& !adjacent_to_player(w, e, ppos)
    &&& player_visible(w, e, ppos)
}

/// What the pathing branch owes, judged on the grid `m0` the actor saw:
/// when the goal cell is open and a route exists, the actor has moved to
/// an open neighbor of its old cell from which the goal is reachable;
/// otherwise it holds position.
pub open spec fn path_step_taken(w0: World, m0: GameMap, wn: World, e: int, ppos: Point) -> bool {
    let start = m0.spec_idx(w0.positions@[e]->0.x as int, w0.positions@[e]->0.y as int);
    let goal = m0.spec_idx(ppos.x as int, ppos.y as int);
    if crate::pathing::open_at(m0, goal) && crate::pathing::has_route(m0, start, goal) {
        &&& wn.positions@[e] != w0.positions@[e]
        &&& wn.positions@[e] is Some
        &&& crate::pathing::adjacent8(
            m0,
            start,
            m0.spec_idx(wn.positions@[e]->0.x as int, wn.positions@[e]->0.y as int),
        )
        &&& crate::pathing::open_at(
            m0,
            m0.spec_idx(wn.positions@[e]->0.x as int, wn.positions@[e]->0.y as int),
        )
        &&& crate::pathing::reaches(
            m0,
            goal,
            m0.spec_idx(wn.positions@[e]->0.x as int, wn.positions@[e]->0.y as int),
        )
    } else {
        wn.positions@[e] == w0.positions@[e]
    }
}

/// What the move does to the blocked bitmap: the old cell cleared and the
/// new cell set, or the bitmap untouched when no move happened.
pub open spec fn blocked_retoggled(
    w0: World,
    m0: GameMap,
    wn: World,
    mn: GameMap,
    e: int,
    ppos: Point,
) -> bool {
    let start = m0.spec_idx(w0.positions@[e]->0.x as int, w0.positions@[e]->0.y as int);
    let goal = m0.spec_idx(ppos.x as int, ppos.y as int);
    if crate::pathing::open_at(m0, goal) && crate::pathing::has_route(m0, start, goal) {
        mn.blocked@ == m0.blocked@.update(start, false).update(
            m0.spec_idx(wn.positions@[e]->0.x as int, wn.positions@[e]->0.y as int),
            true,
        )
    } else {
        mn.blocked == m0.blocked
    }
}

/// The AI decision resolver.
pub struct MonsterAI {}

impl MonsterAI {
    /// One AI pass. Confusion consumes the turn and ticks down; an
    /// adjacent player draws a melee intent regardless of visibility; a
    /// visible player draws a one-step move along an open route, which
    /// dirties the mover's viewshed and retoggles the blocked cells; an
    /// unseen, non-adjacent player leaves the monster exactly as it was.
    #[verifier::rlimit(100)]
    pub fn run(w: &mut World, map: &mut GameMap, player: usize, ppos: Point)
        requires
            old(w).wf(),
            old(map).wf(),
            player < old(w).n(),
            positions_in_bounds(*old(w), *old(map)),
            old(map).in_bounds(ppos.x as int, ppos.y as int),
        ensures
            final(w).wf(),
            final(map).wf(),
            final(w).n() == old(w).n(),
            positions_in_bounds(*final(w), *final(map)),
            final(w).alive == old(w).alive,
            final(w).players == old(w).players,
            final(w).monsters == old(w).monsters,
            final(w).names == old(w).names,
            final(w).renderables == old(w).renderables,
            final(w).blocks_tile == old(w).blocks_tile,
            final(w).combat_stats == old(w).combat_stats,
            final(w).suffer_damage == old(w).suffer_damage,
            final(w).items == old(w).items,
            final(w).consumables == old(w).consumables,
            final(w).ranged == old(w).ranged,
            final(w).inflicts_damage == old(w).inflicts_damage,
            final(w).area_of_effect == old(w).area_of_effect,
            final(w).provides_healing == old(w).provides_healing,
            final(w).equipable == old(w).equipable,
            final(w).equipped == old(w).equipped,
            final(w).melee_bonus == old(w).melee_bonus,
            final(w).defense_bonus == old(w).defense_bonus,
            final(w).in_backpack == old(w).in_backpack,
            final(w).wants_use == old(w).wants_use,
            final(w).wants_pickup == old(w).wants_pickup,
            final(w).wants_drop == old(w).wants_drop,
            final(w).wants_remove == old(w).wants_remove,
            final(w).to_delete == old(w).to_delete,
            final(map).tiles == old(map).tiles,
            final(map).rooms == old(map).rooms,
            final(map).revealed_tiles == old(map).revealed_tiles,
            final(map).visible_tiles == old(map).visible_tiles,
            final(map).tile_content == old(map).tile_content,
            final(map).width == old(map).width,
            final(map).height == old(map).height,
            final(map).depth == old(map).depth,
            final(map).blocked@.len() == old(map).blocked@.len(),
            forall|e: int|
                0 <= e < old(w).n() ==> #[trigger] final(w).confusion@[e] == (if monster_acts(
                    *old(w),
                    e,
                ) && old(w).confusion@[e] is Some {
                    if old(w).confusion@[e]->0.turns <= 1 {
                        Option::<Confusion>::None
                    } else {
                        Some(Confusion { turns: (old(w).confusion@[e]->0.turns - 1) as i32 })
                    }
                } else {
                    old(w).confusion@[e]
                }),
            forall|e: int|
                0 <= e < old(w).n() ==> #[trigger] final(w).wants_melee@[e] == (if monster_acts(
                    *old(w),
                    e,
                ) && old(w).confusion@[e] is None && adjacent_to_player(*old(w), e, ppos) {
                    Some(WantsToMelee { target: player })
                } else {
                    old(w).wants_melee@[e]
                }),
            forall|e: int|
                0 <= e < old(w).n() && !(monster_acts(*old(w), e) && old(w).confusion@[e] is None
                    && !adjacent_to_player(*old(w), e, ppos) && player_visible(*old(w), e, ppos))
                    ==> #[trigger] final(w).positions@[e] == old(w).positions@[e],
            forall|e: int|
                0 <= e < old(w).n() && #[trigger] final(w).positions@[e] != old(w).positions@[e]
                    ==> {
                    &&& monster_acts(*old(w), e)
                    &&& old(w).confusion@[e] is None
                    &&& !adjacent_to_player(*old(w), e, ppos)
                    &&& player_visible(*old(w), e, ppos)
                    &&& final(w).positions@[e] is Some
                    &&& final(map).in_bounds(
                        final(w).positions@[e]->0.x as int,
                        final(w).positions@[e]->0.y as int,
                    )
                    &&& crate::visibility_system::iabs(
                        final(w).positions@[e]->0.x - old(w).positions@[e]->0.x,
                    ) <= 1
                    &&& crate::visibility_system::iabs(
                        final(w).positions@[e]->0.y - old(w).positions@[e]->0.y,
                    ) <= 1
                },
            forall|e: int|
                0 <= e < old(w).n() && #[trigger] final(w).positions@[e] == old(w).positions@[e]
                    ==> final(w).viewsheds@[e] == old(w).viewsheds@[e],
            forall|e: int|
                0 <= e < old(w).n() && #[trigger] final(w).positions@[e] != old(w).positions@[e]
                    ==> {
                    &&& final(w).viewsheds@[e] is Some
                    &&& final(w).viewsheds@[e]->0.dirty == true
                    &&& final(w).viewsheds@[e]->0.range == old(w).viewsheds@[e]->0.range
                    &&& final(w).viewsheds@[e]->0.visible_tiles == old(
                        w,
                    ).viewsheds@[e]->0.visible_tiles
                },
            (forall|e: int| 0 <= e < old(w).n() ==> !takes_path(*old(w), e, ppos))
                ==> final(map).blocked == old(map).blocked,
            forall|e: int|
                0 <= e < old(w).n() && #[trigger] takes_path(*old(w), e, ppos) && (forall|e3: int|
                    0 <= e3 < e ==> !takes_path(*old(w), e3, ppos)) ==> path_step_taken(
                    *old(w),
                    *old(map),
                    *final(w),
                    e,
                    ppos,
                ),
            forall|e: int|
                0 <= e < old(w).n() && #[trigger] takes_path(*old(w), e, ppos) && (forall|e3: int|
                    0 <= e3 < old(w).n() && e3 != e ==> !takes_path(*old(w), e3, ppos))
                    ==> blocked_retoggled(*old(w), *old(map), *final(w), *final(map), e, ppos),
    {
        let ghost w0 = *w;
        let ghost m0 = *map;
        let n = w.alive.len();
        let mut e: usize = 0;
        while e < n
            invariant
                w.wf(),
                map.wf(),
                w0.wf(),
                n == w.n(),
                w.n() == w0.n(),
                e <= n,
                player < n,
                positions_in_bounds(*w, *map),
                map.in_bounds(ppos.x as int, ppos.y as int),
                w.alive == w0.alive,
                w.players == w0.players,
                w.monsters == w0.monsters,
                w.names == w0.names,
                w.renderables == w0.renderables,
                w.blocks_tile == w0.blocks_tile,
                w.combat_stats == w0.combat_stats,
                w.suffer_damage == w0.suffer_damage,
                w.items == w0.items,
                w.consumables == w0.consumables,
                w.ranged == w0.ranged,
                w.inflicts_damage == w0.inflicts_damage,
                w.area_of_effect == w0.area_of_effect,
                w.provides_healing == w0.provides_healing,
                w.equipable == w0.equipable,
                w.equipped == w0.equipped,
                w.melee_bonus == w0.melee_bonus,
                w.defense_bonus == w0.defense_bonus,
                w.in_backpack == w0.in_backpack,
                w.wants_use == w0.wants_use,
                w.wants_pickup == w0.wants_pickup,
                w.wants_drop == w0.wants_drop,
                w.wants_remove == w0.wants_remove,
                w.to_delete == w0.to_delete,
                map.tiles == m0.tiles,
                map.rooms == m0.rooms,
                map.revealed_tiles == m0.revealed_tiles,
                map.visible_tiles == m0.visible_tiles,
                map.tile_content == m0.tile_content,
                map.width == m0.width,
                map.height == m0.height,
                map.depth == m0.depth,
                map.blocked@.len() == m0.blocked@.len(),
                forall|e2: int|
                    0 <= e2 < w0.n() && e2 >= e ==> {
                        &&& #[trigger] w.confusion@[e2] == w0.confusion@[e2]
                        &&& w.wants_melee@[e2] == w0.wants_melee@[e2]
                        &&& w.positions@[e2] == w0.positions@[e2]
                        &&& w.viewsheds@[e2] == w0.viewsheds@[e2]
                    },
                forall|e2: int|
                    0 <= e2 < e ==> #[trigger] w.confusion@[e2] == (if monster_acts(w0, e2)
                        && w0.confusion@[e2] is Some {
                        if w0.confusion@[e2]->0.turns <= 1 {
                            Option::<Confusion>::None
                        } else {
                            Some(Confusion { turns: (w0.confusion@[e2]->0.turns - 1) as i32 })
                        }
                    } else {
                        w0.confusion@[e2]
                    }),
                forall|e2: int|
                    0 <= e2 < e ==> #[trigger] w.wants_melee@[e2] == (if monster_acts(w0, e2)
                        && w0.confusion@[e2] is None && adjacent_to_player(w0, e2, ppos) {
                        Some(WantsToMelee { target: player })
                    } else {
                        w0.wants_melee@[e2]
                    }),
                forall|e2: int|
                    0 <= e2 < w0.n() && !(monster_acts(w0, e2) && w0.confusion@[e2] is None
                        && !adjacent_to_player(w0, e2, ppos) && player_visible(w0, e2, ppos))
                        ==> #[trigger] w.positions@[e2] == w0.positions@[e2],
                forall|e2: int|
                    0 <= e2 < w0.n() && #[trigger] w.positions@[e2] != w0.positions@[e2] ==> {
                        &&& monster_acts(w0, e2)
                        &&& w0.confusion@[e2] is None
                        &&& !adjacent_to_player(w0, e2, ppos)
                        &&& player_visible(w0, e2, ppos)
                        &&& w.positions@[e2] is Some
                        &&& map.in_bounds(
                            w.positions@[e2]->0.x as int,
                            w.positions@[e2]->0.y as int,
                        )
                        &&& crate::visibility_system::iabs(
                            w.positions@[e2]->0.x - w0.positions@[e2]->0.x,
                        ) <= 1
                        &&& crate::visibility_system::iabs(
                            w.positions@[e2]->0.y - w0.positions@[e2]->0.y,
                        ) <= 1
                    },
                forall|e2: int|
                    0 <= e2 < w0.n() && #[trigger] w.positions@[e2] == w0.positions@[e2]
                        ==> w.viewsheds@[e2] == w0.viewsheds@[e2],
                forall|e2: int|
                    0 <= e2 < w0.n() && #[trigger] w.positions@[e2] != w0.positions@[e2] ==> {
                        &&& w.viewsheds@[e2] is Some
                        &&& w.viewsheds@[e2]->0.dirty == true
                        &&& w.viewsheds@[e2]->0.range == w0.viewsheds@[e2]->0.range
                        &&& w.viewsheds@[e2]->0.visible_tiles == w0.viewsheds@[e2]->0.visible_tiles
                    },
                (forall|e2: int| 0 <= e2 < e ==> !takes_path(w0, e2, ppos)) ==> map.blocked
                    == m0.blocked,
                forall|e2: int|
                    0 <= e2 < e && #[trigger] takes_path(w0, e2, ppos) && (forall|e3: int|
                        0 <= e3 < e2 ==> !takes_path(w0, e3, ppos)) ==> path_step_taken(
                        w0,
                        m0,
                        *w,
                        e2,
                        ppos,
                    ),
                forall|e2: int|
                    0 <= e2 < e && #[trigger] takes_path(w0, e2, ppos) && (forall|e3: int|
                        0 <= e3 < e && e3 != e2 ==> !takes_path(w0, e3, ppos))
                        ==> blocked_retoggled(w0, m0, *w, *map, e2, ppos),
            decreases n - e,
        {
            let ghost wpre = *w;
            let ghost mpre = *map;
            let mut acts = false;
            if w.alive[e] {
                if w.monsters[e].is_some() {
                    if w.viewsheds[e].is_some() {
                        if w.positions[e].is_some() {
                            acts = true;
                        }
                    }
                }
            }
            if acts {
                let mut can_act = true;
                match w.confusion[e] {
                    Some(c) => {
                        if c.turns <= 1 {
                            w.confusion[e] = None;
                        } else {
                            w.confusion[e] = Some(Confusion { turns: c.turns - 1 });
                        }
                        can_act = false;
                    },
                    None => {},
                }
                if can_act {
                    let p = match w.positions[e] {
                        Some(p) => p,
                        None => {
                            proof {
                                assert(false);
                            }
                            Position { x: 0, y: 0 }
                        },
                    };
                    let dx: i64 = (p.x as i64) - (ppos.x as i64);
                    let dy: i64 = (p.y as i64) - (ppos.y as i64);
                    proof {
                        let b = 0x7fffffffint;
                        assert(-b <= dx as int <= b && -b <= dy as int <= b);
                        assert(0 <= dx as int * dx as int <= b * b && 0 <= dy as int * dy as int
                            <= b * b) by (nonlinear_arith)
                            requires
                                -b <= dx as int <= b,
                                -b <= dy as int <= b,
                        ;
                        assert((dx as int) * (dx as int) == (p.x as int - ppos.x as int) * (
                        p.x as int - ppos.x as int));
                        assert((dy as int) * (dy as int) == (p.y as int - ppos.y as int) * (
                        p.y as int - ppos.y as int));
                    }
                    if dx * dx + dy * dy <= 2 {
                        w.wants_melee[e] = Some(WantsToMelee { target: player });
                    } else {
                        // Visibility gate: the monster paths only when it
                        // currently sees the player's cell.
                        let mut visible = false;
                        match &w.viewsheds[e] {
                            Some(vs) => {
                                let vn = vs.visible_tiles.len();
                                let mut j: usize = 0;
                                while j < vn
                                    invariant
                                        vn == vs.visible_tiles@.len(),
                                        j <= vn,
                                        visible == (exists|j2: int|
                                            0 <= j2 < j && vs.visible_tiles@[j2] == (Point {
                                                x: ppos.x,
                                                y: ppos.y,
                                            })),
                                    decreases vn - j,
                                {
                                    let q = vs.visible_tiles[j];
                                    if q.x == ppos.x && q.y == ppos.y {
                                        visible = true;
                                    }
                                    j = j + 1;
                                }
                                proof {
                                    if visible {
                                        let j2 = choose|j2: int|
                                            0 <= j2 < vn && vs.visible_tiles@[j2] == (Point {
                                                x: ppos.x,
                                                y: ppos.y,
                                            });
                                        assert(vs.visible_tiles@.contains(
                                            Point { x: ppos.x, y: ppos.y },
                                        ));
                                    } else {
                                        if vs.visible_tiles@.contains(
                                            Point { x: ppos.x, y: ppos.y },
                                        ) {
                                            let j2 = choose|j2: int|
                                                0 <= j2 < vs.visible_tiles@.len()
                                                    && vs.visible_tiles@[j2] == (Point {
                                                    x: ppos.x,
                                                    y: ppos.y,
                                                });
                                            assert(false);
                                        }
                                    }
                                }
                            },
                            None => {
                                proof {
                                    assert(false);
                                }
                            },
                        }
                        if visible {
                            proof {
                                assert(takes_path(w0, e as int, ppos));
                            }
                            if ppos.x >= 0 && ppos.x < map.width && ppos.y >= 0 && ppos.y
                                < map.height {
                                let start_idx = map.xy_idx(p.x, p.y);
                                let goal_idx = map.xy_idx(ppos.x, ppos.y);
                                if !map.blocked[goal_idx] {
                                    match crate::pathing::find_path_step(
                                        map,
                                        start_idx,
                                        goal_idx,
                                    ) {
                                        Some(step) => {
                                            proof {
                                                crate::pathing::lemma_cell_decomp(
                                                    *map,
                                                    step as int,
                                                );
                                                crate::pathing::lemma_recompose_pub(
                                                    *map,
                                                    p.x as int,
                                                    p.y as int,
                                                );
                                            }
                                            let wd = map.width as usize;
                                            let nxu = step % wd;
                                            let nyu = step / wd;
                                            map.blocked[start_idx] = false;
                                            w.positions[e] = Some(
                                                Position { x: nxu as i32, y: nyu as i32 },
                                            );
                                            map.blocked[step] = true;
                                            match &mut w.viewsheds[e] {
                                                Some(vs) => {
                                                    vs.dirty = true;
                                                },
                                                None => {},
                                            }
                                            proof {
                                                if forall|e3: int|
                                                    0 <= e3 < e as int ==> !takes_path(
                                                        w0,
                                                        e3,
                                                        ppos,
                                                    ) {
                                                    assert(mpre.blocked == m0.blocked);
                                                    crate::pathing::lemma_reaches_agree(
                                                        mpre,
                                                        m0,
                                                        goal_idx as int,
                                                        step as int,
                                                    );
                                                    assert(m0.spec_idx(nxu as int, nyu as int)
                                                        == step as int);
                                                    assert(crate::pathing::adjacent8(
                                                        m0,
                                                        start_idx as int,
                                                        step as int,
                                                    ));
                                                    assert(crate::pathing::open_at(
                                                        m0,
                                                        step as int,
                                                    ));
                                                    assert(crate::pathing::reaches(
                                                        m0,
                                                        goal_idx as int,
                                                        step as int,
                                                    ));
                                                    assert(crate::pathing::has_route(
                                                        m0,
                                                        start_idx as int,
                                                        goal_idx as int,
                                                    ));
                                                    assert(path_step_taken(
                                                        w0,
                                                        m0,
                                                        *w,
                                                        e as int,
                                                        ppos,
                                                    ));
                                                    assert(blocked_retoggled(
                                                        w0,
                                                        m0,
                                                        *w,
                                                        *map,
                                                        e as int,
                                                        ppos,
                                                    ));
                                                }
                                            }
                                        },
                                        None => {
                                            proof {
                                                if forall|e3: int|
                                                    0 <= e3 < e as int ==> !takes_path(
                                                        w0,
                                                        e3,
                                                        ppos,
                                                    ) {
                                                    assert(mpre.blocked == m0.blocked);
                                                    crate::pathing::lemma_has_route_agree(
                                                        *map,
                                                        m0,
                                                        start_idx as int,
                                                        goal_idx as int,
                                                    );
                                                    assert(!crate::pathing::has_route(
                                                        m0,
                                                        start_idx as int,
                                                        goal_idx as int,
                                                    ));
                                                    assert(path_step_taken(
                                                        w0,
                                                        m0,
                                                        *w,
                                                        e as int,
                                                        ppos,
                                                    ));
                                                }
                                            }
                                        },
                                    }
                                } else {
                                    proof {
                                        if forall|e3: int|
                                            0 <= e3 < e as int ==> !takes_path(w0, e3, ppos) {
                                            assert(mpre.blocked == m0.blocked);
                                            assert(!crate::pathing::open_at(
                                                m0,
                                                m0.spec_idx(ppos.x as int, ppos.y as int),
                                            ));
                                            assert(path_step_taken(w0, m0, *w, e as int, ppos));
                                        }
                                    }
                                }
                            } else {
                                proof {
                                    assert(false);
                                }
                            }
                        }
                    }
                }
            }
            e = e + 1;
        }
    }
}

} // verus!
