//! The turn scheduler: a finite game-phase machine whose turn phases each
//! run the full fixed resolver pipeline — visibility, AI (monster turn
//! only), spatial index, combat, item effects, pickup, drop, unequip,
//! damage — followed by deferred maintenance and the mortality sweep.
//! The ordering is the core correctness invariant: AI sees this tick's
//! visibility and last tick's spatial index; combat sees this tick's
//! intents; damage applies only after every source has contributed.

use vstd::prelude::*;

use crate::components::Point;
use crate::damage_system::{delete_the_dead, DamageSystem};
use crate::gamelog::GameLog;
use crate::inventory_system::{
    drop_intents_wf, pickup_intents_wf, remove_intents_wf, spec_targets, use_active, use_item_of,
    ItemCollectionSystem, ItemDropSystem, ItemRemoveSystem, ItemUseSystem,
};
use crate::map::GameMap;
use crate::map_indexing_system::{occupants_upto, positions_in_bounds, MapIndexingSystem};
use crate::melee_combat_system::{
    defense_bonus_sum, melee_active, melee_damage, melee_intents_wf, melee_target,
    power_bonus_sum, MeleeCombatSystem, MAX_ENTITIES,
};
use crate::monster_ai_system::MonsterAI;
use crate::visibility_system::{unique_player, viewsheds_wf, VisibilitySystem};
use crate::world::World;

verus! {

/// Phase of the game-state machine. The turn phases cycle; the overlay,
/// save, level and game-over phases are entered and left by the input
/// shell and always come back to the cycle.
#[derive(Clone, Copy, PartialEq, Eq, Structural, Debug)]
pub enum RunState {
    AwaitInput,
    PreRun,
    PlayerTurn,
    MonsterTurn,
    ShowInventory,
    ShowDropItem,
    ShowRemoveItem,
    ShowTargeting,
    SaveGame,
    NextLevel,
    GameOver,
}

/// Whole game state: the world, the map, the log, the phase, and the
/// designated player with its tracked position.
pub struct State {
    pub ecs: World,
    pub map: GameMap,
    pub log: GameLog,
    pub run_state: RunState,
    pub player: usize,
    pub player_pos: Point,
}

/// Bonus sums over equal bonus tables are equal.
proof fn lemma_bonus_sums_congruent(w1: World, w2: World, owner: int, k: int)
    requires
        w1.melee_bonus == w2.melee_bonus,
        w1.defense_bonus == w2.defense_bonus,
        w1.equipped == w2.equipped,
    ensures
        power_bonus_sum(w1, owner, k) == power_bonus_sum(w2, owner, k),
        defense_bonus_sum(w1, owner, k) == defense_bonus_sum(w2, owner, k),
    decreases k,
{
    if k > 0 {
        lemma_bonus_sums_congruent(w1, w2, owner, k - 1);
    }
}

/// Every attached position lies on the map, whether or not its entity is
/// still alive.
pub open spec fn all_positions_in_bounds(w: World, m: GameMap) -> bool {
    forall|e: int|
        0 <= e < w.n() && #[trigger] w.positions@[e] is Some ==> m.in_bounds(
            w.positions@[e]->0.x as int,
            w.positions@[e]->0.y as int,
        )
}

/// Every melee exchange between entities that both carry stats yields a
/// damage value that fits the pending-damage entry type.
pub open spec fn melee_pairs_fit(w: World) -> bool {
    forall|a: int, d: int|
        0 <= a < w.n() && 0 <= d < w.n() && #[trigger] w.combat_stats@[a] is Some
            && #[trigger] w.combat_stats@[d] is Some ==> (w.combat_stats@[a]->0.power
            + power_bonus_sum(w, a, w.n())) - (w.combat_stats@[d]->0.defense + defense_bonus_sum(
            w,
            d,
            w.n(),
        )) <= i32::MAX
}

/// Everything one pipeline pass relies on, stated of the state before the
/// pass. Intent stores that are empty satisfy every intent condition.
pub open spec fn tick_ready(s: State) -> bool {
    let w = s.ecs;
    let m = s.map;
    let pl = s.player as int;
    &&& w.wf()
    &&& m.wf()
    &&& w.n() <= MAX_ENTITIES
    &&& pl < w.n()
    &&& w.alive@[pl]
    &&& unique_player(w, pl)
    &&& w.monsters@[pl] is None
    &&& w.combat_stats@[pl] is Some
    &&& w.names@[pl] is Some
    &&& w.positions@[pl] is Some
    &&& s.player_pos.x == w.positions@[pl]->0.x
    &&& s.player_pos.y == w.positions@[pl]->0.y
    &&& all_positions_in_bounds(w, m)
    &&& viewsheds_wf(w)
    &&& w.to_delete@.len() == 0
    &&& melee_intents_wf(w)
    &&& melee_pairs_fit(w)
    &&& pickup_intents_wf(w, pl)
    &&& drop_intents_wf(w, pl)
    &&& remove_intents_wf(w)
    &&& (forall|e: int, e2: int|
        0 <= e < w.n() && 0 <= e2 < w.n() && #[trigger] w.wants_drop@[e] is Some
            && #[trigger] w.wants_pickup@[e2] is Some ==> w.wants_pickup@[e2]->0.item as int != e)
    &&& (forall|e: int|
        0 <= e < w.n() && #[trigger] w.wants_pickup@[e] is Some ==> w.wants_pickup@[e]->0.item
            as int != pl)
    &&& (forall|e: int|
        0 <= e < w.n() && #[trigger] w.wants_drop@[e] is Some ==> w.wants_drop@[e]->0.item as int
            != pl)
    &&& (forall|u: int|
        0 <= u < w.n() && #[trigger] use_active(w, u) ==> {
            &&& 0 <= use_item_of(w, u) < w.n()
            &&& use_item_of(w, u) != pl
            &&& (w.wants_use@[u]->0.target matches Some(pt) ==> m.in_bounds(
                pt.x as int,
                pt.y as int,
            ))
            &&& (w.area_of_effect@[use_item_of(w, u)] is Some ==> w.area_of_effect@[use_item_of(
                w,
                u,
            )]->0.radius >= 0)
            &&& (w.equipable@[use_item_of(w, u)] is Some ==> w.wants_use@[u]->0.target is None)
            &&& (w.provides_healing@[use_item_of(w, u)] is Some ==> i32::MIN
                <= w.combat_stats@[u]->0.hp + w.provides_healing@[use_item_of(
                w,
                u,
            )]->0.heal_amount <= i32::MAX)
        })
}

impl State {
    /// One full pipeline pass. Afterwards every intent store is empty —
    /// no intent ever survives its tick — the deferred-deletion queue has
    /// been applied and emptied, and the player still stands where it
    /// stood.
    #[verifier::rlimit(100)]
    pub fn run_systems(&mut self)
        requires
            tick_ready(*old(self)),
        ensures
            final(self).ecs.wf(),
            final(self).map.wf(),
            final(self).ecs.n() == old(self).ecs.n(),
            final(self).player == old(self).player,
            final(self).run_state == old(self).run_state,
            final(self).player_pos == old(self).player_pos,
            all_positions_in_bounds(final(self).ecs, final(self).map),
            viewsheds_wf(final(self).ecs),
            unique_player(final(self).ecs, final(self).player as int),
            final(self).ecs.alive@[final(self).player as int],
            final(self).ecs.monsters@[final(self).player as int] is None,
            final(self).ecs.combat_stats@[final(self).player as int] is Some,
            final(self).ecs.names@[final(self).player as int] is Some,
            final(self).ecs.positions@[final(self).player as int]
                == old(self).ecs.positions@[old(self).player as int],
            final(self).ecs.to_delete@.len() == 0,
            forall|e: int|
                0 <= e < final(self).ecs.n() ==> {
                    &&& #[trigger] final(self).ecs.wants_melee@[e] is None
                    &&& final(self).ecs.wants_use@[e] is None
                    &&& final(self).ecs.wants_pickup@[e] is None
                    &&& final(self).ecs.wants_drop@[e] is None
                    &&& final(self).ecs.wants_remove@[e] is None
                },
    {
        let ghost s0 = *old(self);
        let ghost w0 = self.ecs;
        let player = self.player;
        let ppos = self.player_pos;
        proof {
            assert(positions_in_bounds(w0, s0.map));
        }

        // Visibility: recompute dirty viewsheds and the player's fog.
        VisibilitySystem::run(&mut self.ecs, &mut self.map, player);
        let ghost w1 = self.ecs;

        // AI decisions, only on the monster turn.
        let is_monster_turn = match self.run_state {
            RunState::MonsterTurn => true,
            _ => false,
        };
        if is_monster_turn {
            proof {
                assert(positions_in_bounds(self.ecs, self.map));
                assert(self.map.in_bounds(ppos.x as int, ppos.y as int));
            }
            MonsterAI::run(&mut self.ecs, &mut self.map, player, ppos);
        }
        let ghost w2 = self.ecs;
        proof {
            assert(w2.positions@[player as int] == w0.positions@[player as int]);
            assert(positions_in_bounds(w2, self.map));
        }

        // Spatial index: rebuild blocking and occupancy.
        let ghost m1 = self.map;
        MapIndexingSystem::run(&mut self.map, &self.ecs);
        let ghost m2 = self.map;

        // Combat: melee intents into pending damage.
        proof {
            assert(melee_intents_wf(w2)) by {
                assert forall|a: int|
                    0 <= a < w2.n() && #[trigger] melee_active(w2, a) implies {
                    &&& 0 <= melee_target(w2, a) < w2.n()
                    &&& w2.combat_stats@[melee_target(w2, a)] is Some
                    &&& w2.names@[melee_target(w2, a)] is Some
                } by {
                    if w2.wants_melee@[a] == w0.wants_melee@[a] {
                        assert(melee_active(w0, a));
                    } else {
                        assert(melee_target(w2, a) == player as int);
                    }
                }
            }
            assert(crate::melee_combat_system::melee_damage_fits(w2)) by {
                assert forall|a: int|
                    0 <= a < w2.n() && #[trigger] melee_active(w2, a) implies melee_damage(w2, a)
                    <= i32::MAX by {
                    let t = melee_target(w2, a);
                    lemma_bonus_sums_congruent(w2, w0, a, w2.n());
                    lemma_bonus_sums_congruent(w2, w0, t, w2.n());
                }
            }
        }
        MeleeCombatSystem::run(&mut self.ecs, &mut self.log);
        let ghost w3 = self.ecs;

        // Item effects.
        proof {
            assert(crate::inventory_system::content_valid(m2, w3)) by {
                assert forall|idx: int, j: int|
                    0 <= idx < m2.tile_content@.len() && 0 <= j
                        < m2.tile_content@[idx]@.len() implies #[trigger] m2.tile_content@[idx]@[j]
                    < w3.n() by {
                    assert(m2.tile_content@[idx]@ == occupants_upto(w2, m1, idx, w2.n()));
                    crate::map_indexing_system::lemma_occupants_valid(w2, m1, idx, w2.n());
                    assert(occupants_upto(w2, m1, idx, w2.n())[j] < w2.n());
                }
            }
            assert(crate::inventory_system::use_intents_wf(w3, m2)) by {
                assert forall|u: int|
                    0 <= u < w3.n() && #[trigger] use_active(w3, u) implies {
                    &&& 0 <= use_item_of(w3, u) < w3.n()
                    &&& (w3.wants_use@[u]->0.target matches Some(pt) ==> m2.in_bounds(
                        pt.x as int,
                        pt.y as int,
                    ))
                    &&& (w3.area_of_effect@[use_item_of(w3, u)] is Some
                        ==> w3.area_of_effect@[use_item_of(w3, u)]->0.radius >= 0)
                    &&& (crate::inventory_system::equips(w3, u) ==> spec_targets(
                        w3,
                        m2,
                        u,
                    ).len() > 0)
                    &&& (crate::inventory_system::use_has_heal(w3, u) ==> i32::MIN
                        <= w3.combat_stats@[u]->0.hp + w3.provides_healing@[use_item_of(
                        w3,
                        u,
                    )]->0.heal_amount <= i32::MAX)
                } by {
                    assert(use_active(w0, u));
                    if crate::inventory_system::equips(w3, u) {
                        assert(w3.wants_use@[u]->0.target is None);
                        assert(spec_targets(w3, m2, u) == seq![u as usize]);
                    }
                }
            }
        }
        ItemUseSystem::run(&mut self.ecs, &mut self.log, &self.map, player);
        let ghost w4 = self.ecs;

        // Pickup.
        proof {
            assert(pickup_intents_wf(w4, player as int)) by {
                assert forall|e: int|
                    0 <= e < w4.n() && #[trigger] w4.wants_pickup@[e] is Some implies {
                    &&& 0 <= w4.wants_pickup@[e]->0.item < w4.n()
                    &&& 0 <= w4.wants_pickup@[e]->0.collected_by < w4.n()
                    &&& (w4.wants_pickup@[e]->0.collected_by == player as int
                        ==> w4.names@[w4.wants_pickup@[e]->0.item as int] is Some)
                } by {
                    assert(w4.wants_pickup@[e] == w0.wants_pickup@[e]);
                }
            }
        }
        ItemCollectionSystem::run(&mut self.ecs, &mut self.log, player);
        let ghost w5 = self.ecs;

        // Drop.
        proof {
            assert(drop_intents_wf(w5, player as int)) by {
                assert forall|e: int|
                    0 <= e < w5.n() && #[trigger] w5.wants_drop@[e] is Some implies {
                    &&& 0 <= w5.wants_drop@[e]->0.item < w5.n()
                    &&& w5.positions@[e] is Some
                    &&& (e == player as int ==> w5.names@[w5.wants_drop@[e]->0.item as int]
                        is Some)
                } by {
                    assert(w5.wants_drop@[e] == w0.wants_drop@[e]);
                    assert(w0.positions@[e] is Some);
                    assert(w2.positions@[e] is Some);
                    assert(w5.positions@[e] == w4.positions@[e]);
                    assert(w4.positions@[e] == w3.positions@[e]);
                    assert(!crate::inventory_system::picked_upto(w4, e, w4.n()));
                }
            }
        }
        ItemDropSystem::run(&mut self.ecs, &mut self.log, player);
        let ghost w6 = self.ecs;

        // Unequip.
        proof {
            assert(remove_intents_wf(w6)) by {
                assert forall|e: int|
                    0 <= e < w6.n() && #[trigger] w6.wants_remove@[e] is Some implies 0
                    <= w6.wants_remove@[e]->0.item < w6.n() by {
                    assert(w6.wants_remove@[e] == w0.wants_remove@[e]);
                }
            }
        }
        ItemRemoveSystem::run(&mut self.ecs);
        let ghost w7 = self.ecs;

        // Damage, then maintenance.
        DamageSystem::run(&mut self.ecs);
        let ghost w8 = self.ecs;
        proof {
            assert forall|j: int|
                0 <= j < w8.to_delete@.len() implies w8.to_delete@[j] < w8.n() by {
                assert(w8.to_delete@ == w0.to_delete@ + crate::inventory_system::use_deletes(
                    w3,
                    m2,
                    w3.n(),
                ));
                crate::inventory_system::lemma_use_deletes_valid(w3, m2, w3.n());
            }
        }
        self.ecs.maintain();
        proof {
            assert(!World::queued(
                w8.to_delete@,
                w8.to_delete@.len() as int,
                player as int,
            )) by {
                crate::inventory_system::lemma_use_deletes_valid(w3, m2, w3.n());
                let dels = crate::inventory_system::use_deletes(w3, m2, w3.n());
                assert(w8.to_delete@ =~= dels);
                if World::queued(w8.to_delete@, w8.to_delete@.len() as int, player as int) {
                    let j = choose|j: int|
                        0 <= j < w8.to_delete@.len() && w8.to_delete@[j] == player as int;
                    assert(dels[j] == player);
                    let u = choose|u: int|
                        0 <= u < w3.n() && #[trigger] use_active(w3, u) && #[trigger] dels[j]
                            == use_item_of(w3, u) as usize;
                    assert(w3.wants_use@[u] == w0.wants_use@[u]);
                    assert(w3.combat_stats@[u] == w0.combat_stats@[u]);
                    assert(use_active(w0, u));
                    assert(use_item_of(w0, u) != player as int);
                    assert(use_item_of(w3, u) == use_item_of(w0, u));
                    assert(false);
                }
            }
            assert(World::entity_unchanged(w8, self.ecs, player as int));
            let wf_ = self.ecs;
            let mf = self.map;
            let n0 = w0.n();
            assert forall|e: int|
                0 <= e < n0 implies (#[trigger] wf_.players@[e] is Some <==> e
                == player as int) by {
                if World::queued(w8.to_delete@, w8.to_delete@.len() as int, e) {
                    assert(wf_.cleared(e));
                    assert(e != player as int);
                } else {
                    assert(World::entity_unchanged(w8, wf_, e));
                    assert(w8.players@[e] == w0.players@[e]);
                }
            }
            assert(wf_.positions@[player as int] == w0.positions@[player as int]) by {
                assert(World::entity_unchanged(w8, wf_, player as int));
                assert(w8.positions@[player as int] == w6.positions@[player as int]);
                assert(w6.positions@[player as int]
                    == crate::inventory_system::drop_pos_after(w5, player as int, w5.n()));
                assert forall|e: int|
                    0 <= e < w5.n() && #[trigger] w5.wants_drop@[e] is Some implies
                    w5.wants_drop@[e]->0.item as int != player as int by {
                    assert(w5.wants_drop@[e] == w0.wants_drop@[e]);
                }
                crate::inventory_system::lemma_drop_pos_untouched(w5, player as int, w5.n());
                assert(!crate::inventory_system::picked_upto(w4, player as int, w4.n())) by {
                    if crate::inventory_system::picked_upto(w4, player as int, w4.n()) {
                        let e = choose|e: int|
                            0 <= e < w4.n() && #[trigger] w4.wants_pickup@[e] is Some
                                && w4.wants_pickup@[e]->0.item == player as int;
                        assert(w4.wants_pickup@[e] == w0.wants_pickup@[e]);
                    }
                }
                assert(w5.positions@[player as int] == w4.positions@[player as int]);
                assert(w4.positions@[player as int] == w2.positions@[player as int]);
                assert(w2.positions@[player as int] == w0.positions@[player as int]);
            }
            assert forall|e: int|
                0 <= e < n0 implies {
                &&& #[trigger] wf_.wants_melee@[e] is None
                &&& wf_.wants_use@[e] is None
                &&& wf_.wants_pickup@[e] is None
                &&& wf_.wants_drop@[e] is None
                &&& wf_.wants_remove@[e] is None
            } by {
                if World::queued(w8.to_delete@, w8.to_delete@.len() as int, e) {
                    assert(wf_.cleared(e));
                } else {
                    assert(World::entity_unchanged(w8, wf_, e));
                    assert(w8.wants_melee@[e] == w3.wants_melee@[e]);
                    assert(w8.wants_use@[e] == w4.wants_use@[e]);
                    assert(w8.wants_pickup@[e] == w5.wants_pickup@[e]);
                    assert(w8.wants_drop@[e] == w6.wants_drop@[e]);
                    assert(w8.wants_remove@[e] == w7.wants_remove@[e]);
                }
            }
            assert(wf_.combat_stats@[player as int] is Some) by {
                assert(World::entity_unchanged(w8, wf_, player as int));
                assert(w4.combat_stats@[player as int] == crate::inventory_system::use_stats_after(
                    w3,
                    player as int,
                    w3.n(),
                ));
                crate::inventory_system::lemma_use_stats_some(w3, player as int, w3.n());
                assert(w3.combat_stats@[player as int] == w0.combat_stats@[player as int]);
                assert(w7.combat_stats@[player as int] == w4.combat_stats@[player as int]);
                if crate::damage_system::takes_damage(w7, player as int) {
                    assert(w8.combat_stats@[player as int] is Some);
                } else {
                    assert(w8.combat_stats@[player as int] == w7.combat_stats@[player as int]);
                }
            }
            assert forall|e: int|
                0 <= e < n0 && #[trigger] wf_.positions@[e] is Some implies mf.in_bounds(
                wf_.positions@[e]->0.x as int,
                wf_.positions@[e]->0.y as int,
            ) by {
                if World::queued(w8.to_delete@, w8.to_delete@.len() as int, e) {
                    assert(wf_.cleared(e));
                } else {
                    assert(World::entity_unchanged(w8, wf_, e));
                    assert(w8.positions@[e] == w7.positions@[e]);
                    assert(w7.positions@[e] == w6.positions@[e]);
                    assert(w6.positions@[e] == crate::inventory_system::drop_pos_after(
                        w5,
                        e,
                        w5.n(),
                    ));
                    crate::inventory_system::lemma_drop_pos_provenance(w5, e, w5.n());
                    let j = choose|j: int|
                        0 <= j < w5.n() && crate::inventory_system::drop_pos_after(w5, e, w5.n())
                            == #[trigger] w5.positions@[j];
                    assert(w5.positions@[j] == (if crate::inventory_system::picked_upto(
                        w4,
                        j,
                        w4.n(),
                    ) {
                        Option::<crate::components::Position>::None
                    } else {
                        w4.positions@[j]
                    }));
                    assert(w4.positions@[j] == w2.positions@[j]);
                    if w2.positions@[j] != w1.positions@[j] {
                        assert(self.map.in_bounds(
                            w2.positions@[j]->0.x as int,
                            w2.positions@[j]->0.y as int,
                        ));
                    } else {
                        assert(w1.positions@[j] == w0.positions@[j]);
                    }
                }
            }
            assert forall|e: int|
                0 <= e < n0 && #[trigger] wf_.viewsheds@[e] is Some implies
                wf_.viewsheds@[e]->0.range >= 0 by {
                if World::queued(w8.to_delete@, w8.to_delete@.len() as int, e) {
                    assert(wf_.cleared(e));
                } else {
                    assert(World::entity_unchanged(w8, wf_, e));
                    assert(w8.viewsheds@[e] == w2.viewsheds@[e]);
                    if w2.positions@[e] != w1.positions@[e] {
                        assert(w2.viewsheds@[e]->0.range == w1.viewsheds@[e]->0.range);
                    } else {
                        assert(w2.viewsheds@[e] == w1.viewsheds@[e]);
                    }
                    if crate::visibility_system::dirty_viewer(w0, e) {
                        assert(w1.viewsheds@[e]->0.range == w0.viewsheds@[e]->0.range);
                    } else {
                        assert(w1.viewsheds@[e] == w0.viewsheds@[e]);
                    }
                }
            }
        }
    }

    /// Advance the state machine by one frame: the three turn phases run
    /// the full pipeline and move on unconditionally; overlay phases are
    /// left for the input shell. The mortality sweep runs after every
    /// frame, whatever the phase, and a defeated player moves the game to
    /// its game-over phase instead of being removed.
    pub fn tick(&mut self)
        requires
            (old(self).run_state == RunState::PreRun || old(self).run_state
                == RunState::PlayerTurn || old(self).run_state == RunState::MonsterTurn)
                ==> tick_ready(*old(self)),
            old(self).ecs.wf(),
        ensures
            final(self).ecs.wf(),
            final(self).ecs.n() == old(self).ecs.n(),
            old(self).run_state == RunState::PreRun || old(self).run_state == RunState::PlayerTurn
                || old(self).run_state == RunState::MonsterTurn ==> {
                &&& (final(self).run_state == (match old(self).run_state {
                    RunState::PreRun => RunState::AwaitInput,
                    RunState::PlayerTurn => RunState::MonsterTurn,
                    RunState::MonsterTurn => RunState::AwaitInput,
                    _ => old(self).run_state,
                }) || final(self).run_state == RunState::GameOver)
                &&& forall|e: int|
                    0 <= e < final(self).ecs.n() ==> {
                        &&& #[trigger] final(self).ecs.wants_melee@[e] is None
                        &&& final(self).ecs.wants_use@[e] is None
                        &&& final(self).ecs.wants_pickup@[e] is None
                        &&& final(self).ecs.wants_drop@[e] is None
                        &&& final(self).ecs.wants_remove@[e] is None
                    }
            },
            forall|e: int|
                0 <= e < final(self).ecs.n() && final(self).ecs.alive@[e]
                    && #[trigger] final(self).ecs.combat_stats@[e] is Some
                    && final(self).ecs.combat_stats@[e]->0.hp < 1
                    ==> final(self).ecs.players@[e] is Some,
            (final(self).run_state == RunState::GameOver) <==> (old(self).run_state
                == RunState::GameOver || exists|e: int|
                0 <= e < final(self).ecs.n() && final(self).ecs.alive@[e]
                    && #[trigger] final(self).ecs.combat_stats@[e] is Some
                    && final(self).ecs.combat_stats@[e]->0.hp < 1
                    && final(self).ecs.players@[e] is Some),
    {
        let advance = match self.run_state {
            RunState::PreRun => true,
            RunState::PlayerTurn => true,
            RunState::MonsterTurn => true,
            _ => false,
        };
        if advance {
            self.run_systems();
            let next = match self.run_state {
                RunState::PreRun => RunState::AwaitInput,
                RunState::PlayerTurn => RunState::MonsterTurn,
                RunState::MonsterTurn => RunState::AwaitInput,
                other => other,
            };
            self.run_state = next;
        }
        // Mortality sweep, after every frame regardless of phase.
        let ghost wpd = self.ecs;
        let defeated = delete_the_dead(&mut self.ecs);
        proof {
            if advance {
                assert forall|e: int|
                    0 <= e < self.ecs.n() implies {
                    &&& #[trigger] self.ecs.wants_melee@[e] is None
                    &&& self.ecs.wants_use@[e] is None
                    &&& self.ecs.wants_pickup@[e] is None
                    &&& self.ecs.wants_drop@[e] is None
                    &&& self.ecs.wants_remove@[e] is None
                } by {
                    if wpd.alive@[e] && wpd.combat_stats@[e] is Some && wpd.combat_stats@[e]->0.hp
                        < 1 && wpd.players@[e] is None {
                        assert(self.ecs.cleared(e));
                    } else {
                        assert(World::entity_unchanged(wpd, self.ecs, e));
                    }
                }
            }
            assert forall|e: int|
                0 <= e < self.ecs.n() && self.ecs.alive@[e]
                    && #[trigger] self.ecs.combat_stats@[e] is Some
                    && self.ecs.combat_stats@[e]->0.hp < 1 implies self.ecs.players@[e]
                is Some by {
                if !(wpd.alive@[e] && wpd.combat_stats@[e] is Some && wpd.combat_stats@[e]->0.hp
                    < 1 && wpd.players@[e] is None) {
                    assert(World::entity_unchanged(wpd, self.ecs, e));
                } else {
                    assert(self.ecs.cleared(e));
                }
            }
        }
        proof {
            assert((exists|e: int|
                0 <= e < self.ecs.n() && self.ecs.alive@[e]
                    && #[trigger] self.ecs.combat_stats@[e] is Some
                    && self.ecs.combat_stats@[e]->0.hp < 1 && self.ecs.players@[e] is Some)
                == defeated) by {
                if defeated {
                    let e = choose|e: int|
                        0 <= e < wpd.n() && wpd.alive@[e] && #[trigger] wpd.combat_stats@[e]
                            is Some && wpd.combat_stats@[e]->0.hp < 1 && wpd.players@[e] is Some;
                    assert(World::entity_unchanged(wpd, self.ecs, e));
                    assert(self.ecs.alive@[e] && self.ecs.combat_stats@[e] is Some
                        && self.ecs.combat_stats@[e]->0.hp < 1 && self.ecs.players@[e] is Some);
                } else {
                    if exists|e: int|
                        0 <= e < self.ecs.n() && self.ecs.alive@[e]
                            && #[trigger] self.ecs.combat_stats@[e] is Some
                            && self.ecs.combat_stats@[e]->0.hp < 1 && self.ecs.players@[e]
                            is Some {
                        let e = choose|e: int|
                            0 <= e < self.ecs.n() && self.ecs.alive@[e]
                                && #[trigger] self.ecs.combat_stats@[e] is Some
                                && self.ecs.combat_stats@[e]->0.hp < 1 && self.ecs.players@[e]
                                is Some;
                        if wpd.alive@[e] && wpd.combat_stats@[e] is Some
                            && wpd.combat_stats@[e]->0.hp < 1 && wpd.players@[e] is None {
                            assert(self.ecs.cleared(e));
                            assert(false);
                        } else {
                            assert(World::entity_unchanged(wpd, self.ecs, e));
                            assert(wpd.alive@[e] && wpd.combat_stats@[e] is Some
                                && wpd.combat_stats@[e]->0.hp < 1 && wpd.players@[e] is Some);
                            assert(false);
                        }
                    }
                }
            }
        }
        if defeated {
            self.run_state = RunState::GameOver;
        }
    }
}

} // verus!
