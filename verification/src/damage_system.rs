//! The damage and mortality resolver: pending damage is summed onto combat
//! stats exactly once per tick, and entities whose health has fallen below
//! one are removed — except the player, whose death is signalled instead.

use vstd::prelude::*;

use crate::gamelog::GameLog;
use crate::world::World;

verus! {

/// Sum of a pending-damage list.
pub open spec fn sum_i32(s: Seq<i32>) -> int
    decreases s.len(),
{
    if s.len() == 0 {
        0
    } else {
        sum_i32(s.drop_last()) + s.last()
    }
}

/// Entity `e` has stats and a pending-damage list to apply.
pub open spec fn takes_damage(w: World, e: int) -> bool {
    w.combat_stats@[e] is Some && w.suffer_damage@[e] is Some
}

/// Health after the damage pass: previous health minus the sum of the
/// tick's pending entries, held to the representable range.
pub open spec fn hp_after(w: World, e: int) -> int {
    let exact = w.combat_stats@[e]->0.hp - sum_i32(w.suffer_seq(e));
    if exact < i32::MIN {
        i32::MIN as int
    } else if exact > i32::MAX {
        i32::MAX as int
    } else {
        exact
    }
}

/// The damage resolver.
pub struct DamageSystem {}

impl DamageSystem {
    /// For every entity with stats and a pending-damage list, subtract the
    /// sum of the pending amounts from its current health; then clear
    /// every pending-damage list, so no entry is ever applied twice.
    pub fn run(w: &mut World)
        requires
            old(w).wf(),
        ensures
            final(w).wf(),
            final(w).n() == old(w).n(),
            final(w).alive == old(w).alive,
            final(w).players == old(w).players,
            final(w).monsters == old(w).monsters,
            final(w).names == old(w).names,
            final(w).positions == old(w).positions,
            final(w).renderables == old(w).renderables,
            final(w).blocks_tile == old(w).blocks_tile,
            final(w).viewsheds == old(w).viewsheds,
            final(w).confusion == old(w).confusion,
            final(w).items == old(w).items,
            final(w).consumables == old(w).consumables,
            final(w).ranged == old(w).ranged,
            final(w).inflicts_damage == old(w).inflicts_damage,
            final(w).area_of_effect == old(w).area_of_effect,
            final(w).provides_healing == old(w).provides_healing,
            final(w).equipable == old(w).equipable,
            final(w).equipped == old(w).equipped,
            final(w).melee_bonus == old(w).melee_bonus,
            final(w).defense_bonus == old(w).defense_bonus,
            final(w).in_backpack == old(w).in_backpack,
            final(w).wants_melee == old(w).wants_melee,
            final(w).wants_use == old(w).wants_use,
            final(w).wants_pickup == old(w).wants_pickup,
            final(w).wants_drop == old(w).wants_drop,
            final(w).wants_remove == old(w).wants_remove,
            final(w).to_delete == old(w).to_delete,
            forall|e: int| 0 <= e < old(w).n() ==> final(w).suffer_damage@[e] is None,
            forall|e: int|
                0 <= e < old(w).n() && takes_damage(*old(w), e) ==> {
                    &&& #[trigger] final(w).combat_stats@[e] is Some
                    &&& final(w).combat_stats@[e]->0.hp == hp_after(*old(w), e)
                    &&& final(w).combat_stats@[e]->0.max_hp == old(w).combat_stats@[e]->0.max_hp
                    &&& final(w).combat_stats@[e]->0.defense == old(w).combat_stats@[e]->0.defense
                    &&& final(w).combat_stats@[e]->0.power == old(w).combat_stats@[e]->0.power
                },
            forall|e: int|
                0 <= e < old(w).n() && !takes_damage(*old(w), e) ==> final(w).combat_stats@[e]
                    == old(w).combat_stats@[e],
    {
        let ghost w0 = *w;
        let n = w.alive.len();
        let mut e: usize = 0;
        while e < n
            invariant
                w.wf(),
                w0.wf(),
                n == w.n(),
                w.n() == w0.n(),
                e <= n,
                w.alive == w0.alive,
                w.players == w0.players,
                w.monsters == w0.monsters,
                w.names == w0.names,
                w.positions == w0.positions,
                w.renderables == w0.renderables,
                w.blocks_tile == w0.blocks_tile,
                w.viewsheds == w0.viewsheds,
                w.confusion == w0.confusion,
                w.items == w0.items,
                w.consumables == w0.consumables,
                w.ranged == w0.ranged,
                w.inflicts_damage == w0.inflicts_damage,
                w.area_of_effect == w0.area_of_effect,
                w.provides_healing == w0.provides_healing,
                w.equipable == w0.equipable,
                w.equipped == w0.equipped,
                w.melee_bonus == w0.melee_bonus,
                w.defense_bonus == w0.defense_bonus,
                w.in_backpack == w0.in_backpack,
                w.wants_melee == w0.wants_melee,
                w.wants_use == w0.wants_use,
                w.wants_pickup == w0.wants_pickup,
                w.wants_drop == w0.wants_drop,
                w.wants_remove == w0.wants_remove,
                w.to_delete == w0.to_delete,
                w.suffer_damage@.len() == w0.n(),
                forall|e2: int| 0 <= e2 < e ==> w.suffer_damage@[e2] is None,
                forall|e2: int|
                    e <= e2 < w0.n() ==> #[trigger] w.suffer_damage@[e2] == w0.suffer_damage@[e2],
                forall|e2: int|
                    0 <= e2 < w0.n() && e2 < e && takes_damage(w0, e2) ==> {
                        &&& #[trigger] w.combat_stats@[e2] is Some
                        &&& w.combat_stats@[e2]->0.hp == hp_after(w0, e2)
                        &&& w.combat_stats@[e2]->0.max_hp == w0.combat_stats@[e2]->0.max_hp
                        &&& w.combat_stats@[e2]->0.defense == w0.combat_stats@[e2]->0.defense
                        &&& w.combat_stats@[e2]->0.power == w0.combat_stats@[e2]->0.power
                    },
                forall|e2: int|
                    0 <= e2 < w0.n() && (e2 >= e || !takes_damage(w0, e2))
                        ==> #[trigger] w.combat_stats@[e2] == w0.combat_stats@[e2],
            decreases n - e,
        {
            let ghost wpre = *w;
            match w.combat_stats[e] {
                Some(stats) => {
                    let mut total: i128 = 0;
                    let mut has_list = false;
                    match &w.suffer_damage[e] {
                        Some(sd) => {
                            has_list = true;
                            let m = sd.amount.len();
                            let mut j: usize = 0;
                            proof {
                                assert(takes_damage(w0, e as int));
                                assert(sd.amount@ == w0.suffer_seq(e as int));
                            }
                            while j < m
                                invariant
                                    m == sd.amount@.len(),
                                    j <= m,
                                    total == sum_i32(sd.amount@.subrange(0, j as int)),
                                    -(j as int) * 0x80000000 <= total <= (j as int) * 0x80000000,
                                decreases m - j,
                            {
                                proof {
                                    assert(sd.amount@.subrange(0, j as int + 1).drop_last()
                                        =~= sd.amount@.subrange(0, j as int));
                                    assert((j as int) * 0x80000000 + 0x80000000 == (j as int + 1)
                                        * 0x80000000) by (nonlinear_arith);
                                    assert((j as int + 1) * 0x80000000 <= 0x10000000000000000
                                        * 0x80000000) by (nonlinear_arith)
                                        requires
                                            j as int + 1 <= 0x10000000000000000,
                                    ;
                                }
                                total = total + (sd.amount[j] as i128);
                                j = j + 1;
                            }
                            proof {
                                assert(sd.amount@.subrange(0, m as int) =~= sd.amount@);
                            }
                        },
                        None => {},
                    }
                    if has_list {
                        proof {
                            assert(total == sum_i32(w0.suffer_seq(e as int)));
                            assert(-0x10000000000000000 * 0x80000000 <= total
                                <= 0x10000000000000000 * 0x80000000);
                        }
                        let exact: i128 = (stats.hp as i128) - total;
                        let new_hp: i32 = if exact < (i32::MIN as i128) {
                            i32::MIN
                        } else if exact > (i32::MAX as i128) {
                            i32::MAX
                        } else {
                            exact as i32
                        };
                        let new_stats = crate::components::CombatStats {
                            max_hp: stats.max_hp,
                            hp: new_hp,
                            defense: stats.defense,
                            power: stats.power,
                        };
                        w.combat_stats[e] = Some(new_stats);
                    }
                },
                None => {},
            }
            w.suffer_damage[e] = None;
            e = e + 1;
            proof {
                assert forall|e2: int|
                    0 <= e2 < w0.n() && e2 < e && takes_damage(w0, e2) implies {
                    &&& #[trigger] w.combat_stats@[e2] is Some
                    &&& w.combat_stats@[e2]->0.hp == hp_after(w0, e2)
                    &&& w.combat_stats@[e2]->0.max_hp == w0.combat_stats@[e2]->0.max_hp
                    &&& w.combat_stats@[e2]->0.defense == w0.combat_stats@[e2]->0.defense
                    &&& w.combat_stats@[e2]->0.power == w0.combat_stats@[e2]->0.power
                } by {
                    if e2 < e - 1 {
                        assert(wpre.combat_stats@[e2] is Some);
                        assert(w.combat_stats@[e2] == wpre.combat_stats@[e2]);
                    }
                }
            }
        }
    }
}

/// Remove every entity whose health has dropped below one — except the
/// player, which is never deleted this way. Returns whether the player is
/// defeated, so the caller can move the game to its game-over phase.
/// Victims are collected first and deleted after the scan.
pub fn delete_the_dead(w: &mut World) -> (player_defeated: bool)
    requires
        old(w).wf(),
    ensures
        final(w).wf(),
        final(w).n() == old(w).n(),
        final(w).to_delete@ == old(w).to_delete@,
        player_defeated == (exists|e: int|
            0 <= e < old(w).n() && old(w).alive@[e] && #[trigger] old(w).combat_stats@[e] is Some
                && old(w).combat_stats@[e]->0.hp < 1 && old(w).players@[e] is Some),
        forall|e: int|
            0 <= e < old(w).n() && old(w).alive@[e] && #[trigger] old(w).combat_stats@[e] is Some
                && old(w).combat_stats@[e]->0.hp < 1 && old(w).players@[e] is None
                ==> final(w).cleared(e),
        forall|e: int|
            0 <= e < old(w).n() && !(old(w).alive@[e] && old(w).combat_stats@[e] is Some
                && old(w).combat_stats@[e]->0.hp < 1 && old(w).players@[e] is None)
                ==> World::entity_unchanged(*old(w), *final(w), e),
{
    let ghost w0 = *w;
    let n = w.alive.len();
    let mut dead: Vec<usize> = Vec::new();
    let mut player_defeated = false;
    let mut e: usize = 0;
    while e < n
        invariant
            w.wf(),
            *w == w0,
            n == w.n(),
            e <= n,
            forall|j: int| 0 <= j < dead@.len() ==> dead@[j] < n,
            forall|j: int|
                0 <= j < dead@.len() ==> {
                    let d = #[trigger] dead@[j] as int;
                    &&& w0.alive@[d]
                    &&& w0.combat_stats@[d] is Some
                    &&& w0.combat_stats@[d]->0.hp < 1
                    &&& w0.players@[d] is None
                },
            forall|e2: int|
                0 <= e2 < e && w0.alive@[e2] && #[trigger] w0.combat_stats@[e2] is Some
                    && w0.combat_stats@[e2]->0.hp < 1 && w0.players@[e2] is None
                    ==> dead@.contains(e2 as usize),
            player_defeated == (exists|e2: int|
                0 <= e2 < e && w0.alive@[e2] && #[trigger] w0.combat_stats@[e2] is Some
                    && w0.combat_stats@[e2]->0.hp < 1 && w0.players@[e2] is Some),
        decreases n - e,
    {
        let ghost dpre = dead@;
        if w.alive[e] {
            match w.combat_stats[e] {
                Some(stats) => {
                    if stats.hp < 1 {
                        if w.players[e].is_some() {
                            player_defeated = true;
                        } else {
                            dead.push(e);
                            proof {
                                assert(dead@.last() == e);
                                assert(dead@.contains(e));
                            }
                        }
                    }
                },
                None => {},
            }
        }
        e = e + 1;
        proof {
            assert forall|e2: int|
                0 <= e2 < e && w0.alive@[e2] && #[trigger] w0.combat_stats@[e2] is Some
                    && w0.combat_stats@[e2]->0.hp < 1 && w0.players@[e2] is None implies
                dead@.contains(e2 as usize) by {
                if e2 < e - 1 {
                    assert(dpre.contains(e2 as usize));
                    let k = choose|k: int| 0 <= k < dpre.len() && dpre[k] == e2 as usize;
                    assert(dead@[k] == e2 as usize);
                }
            }
        }
    }
    // Apply the deletions only after the scan has finished.
    let m = dead.len();
    let mut j: usize = 0;
    while j < m
        invariant
            w.wf(),
            w.n() == w0.n(),
            w.to_delete@ == w0.to_delete@,
            m == dead@.len(),
            j <= m,
            forall|k: int| 0 <= k < m ==> dead@[k] < w.n(),
            forall|k: int|
                0 <= k < m ==> {
                    let d = #[trigger] dead@[k] as int;
                    &&& w0.alive@[d]
                    &&& w0.combat_stats@[d] is Some
                    &&& w0.combat_stats@[d]->0.hp < 1
                    &&& w0.players@[d] is None
                },
            forall|e2: int|
                0 <= e2 < w0.n() && w0.alive@[e2] && #[trigger] w0.combat_stats@[e2] is Some
                    && w0.combat_stats@[e2]->0.hp < 1 && w0.players@[e2] is None
                    ==> dead@.contains(e2 as usize),
            forall|e2: int|
                0 <= e2 < w0.n() && (exists|k: int| 0 <= k < j && dead@[k] == e2) ==> w.cleared(
                    e2,
                ),
            forall|e2: int|
                0 <= e2 < w0.n() && !(exists|k: int| 0 <= k < j && dead@[k] == e2)
                    ==> World::entity_unchanged(w0, *w, e2),
        decreases m - j,
    {
        let ghost wpre = *w;
        let d = dead[j];
        w.delete_entity(d);
        j = j + 1;
        proof {
            assert forall|e2: int|
                0 <= e2 < w0.n() && (exists|k: int| 0 <= k < j && dead@[k] == e2) implies w.cleared(
                e2,
            ) by {
                if e2 == d as int {
                    assert(w.cleared(d as int));
                } else {
                    let k = choose|k: int| 0 <= k < j && dead@[k] == e2;
                    assert(0 <= k < j - 1);
                    assert(wpre.cleared(e2));
                    assert(World::entity_unchanged(wpre, *w, e2));
                }
            }
            assert forall|e2: int|
                0 <= e2 < w0.n() && !(exists|k: int| 0 <= k < j && dead@[k] == e2) implies
                World::entity_unchanged(w0, *w, e2) by {
                assert(dead@[j - 1] == d);
                assert(e2 != d as int);
                assert(!(exists|k: int| 0 <= k < j - 1 && dead@[k] == e2));
                assert(World::entity_unchanged(w0, wpre, e2));
                assert(World::entity_unchanged(wpre, *w, e2));
            }
        }
    }
    proof {
        assert forall|e2: int|
            0 <= e2 < w0.n() && w0.alive@[e2] && #[trigger] w0.combat_stats@[e2] is Some
                && w0.combat_stats@[e2]->0.hp < 1 && w0.players@[e2] is None implies w.cleared(
            e2,
        ) by {
            assert(dead@.contains(e2 as usize));
            let k = choose|k: int| 0 <= k < dead@.len() && dead@[k] == e2 as usize;
            assert(dead@[k] == e2);
        }
        assert forall|e2: int|
            0 <= e2 < w0.n() && !(w0.alive@[e2] && w0.combat_stats@[e2] is Some
                && w0.combat_stats@[e2]->0.hp < 1 && w0.players@[e2] is None) implies
            World::entity_unchanged(w0, *w, e2) by {
            assert(!(exists|k: int| 0 <= k < dead@.len() && dead@[k] == e2));
        }
    }
    player_defeated
}

} // verus!
