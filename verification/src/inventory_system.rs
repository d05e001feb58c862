//! The inventory resolvers: picking items up, using them (targeting,
//! equipping, damage, confusion, healing, consumption), dropping them and
//! unequipping them. Each resolver consumes its intent storage exactly
//! once per tick.

use vstd::prelude::*;

use crate::components::{
    CombatStats, Confusion, Equipped, InBackpack, Point, Position, SufferDamage,
    WantsToPickupItem,
};
use crate::gamelog::GameLog;
use crate::map::GameMap;
use crate::visibility_system::fov_tiles;
use crate::world::World;

verus! {

/// Every pickup intent names an existing item, an existing collector, and
/// — when the collector is the player — a named item.
pub open spec fn pickup_intents_wf(w: World, player: int) -> bool {
    forall|e: int|
        0 <= e < w.n() && #[trigger] w.wants_pickup@[e] is Some ==> {
            &&& 0 <= w.wants_pickup@[e]->0.item < w.n()
            &&& 0 <= w.wants_pickup@[e]->0.collected_by < w.n()
            &&& (w.wants_pickup@[e]->0.collected_by == player
                ==> w.names@[w.wants_pickup@[e]->0.item as int] is Some)
        }
}

/// Whether any of the first `k` pickup intents picks item `i`.
pub open spec fn picked_upto(w: World, i: int, k: int) -> bool {
    exists|e: int| 0 <= e < k && #[trigger] w.wants_pickup@[e] is Some && w.wants_pickup@[e]->0.item == i
}

/// Backpack slot of item `i` after the first `k` pickup intents ran.
pub open spec fn pickup_backpack_after(w: World, i: int, k: int) -> Option<InBackpack>
    decreases k,
{
    if k <= 0 {
        w.in_backpack@[i]
    } else {
        if w.wants_pickup@[k - 1] is Some && w.wants_pickup@[k - 1]->0.item == i {
            Some(InBackpack { owner: w.wants_pickup@[k - 1]->0.collected_by })
        } else {
            pickup_backpack_after(w, i, k - 1)
        }
    }
}

/// Messages logged by the first `k` pickup intents: one per item the
/// player collects.
pub open spec fn pickup_messages(w: World, player: int, k: int) -> Seq<Seq<char>>
    decreases k,
{
    if k <= 0 {
        Seq::<Seq<char>>::empty()
    } else {
        let pre = pickup_messages(w, player, k - 1);
        if w.wants_pickup@[k - 1] is Some && w.wants_pickup@[k - 1]->0.collected_by == player {
            pre.push(
                "You pick up the "@ + w.names@[w.wants_pickup@[k - 1]->0.item as int]->0.name@ + "."@,
            )
        } else {
            pre
        }
    }
}

/// The pickup resolver.
pub struct ItemCollectionSystem {}

impl ItemCollectionSystem {
    /// For every pickup intent: remove the item's map position, place it
    /// in the collector's backpack, and tell the player about its own
    /// pickups. All pickup intents are cleared afterwards.
    pub fn run(w: &mut World, log: &mut GameLog, player: usize)
        requires
            old(w).wf(),
            player < old(w).n(),
            pickup_intents_wf(*old(w), player as int),
        ensures
            final(w).wf(),
            final(w).n() == old(w).n(),
            forall|e: int| 0 <= e < final(w).n() ==> final(w).wants_pickup@[e] is None,
            final(w).alive == old(w).alive,
            final(w).players == old(w).players,
            final(w).monsters == old(w).monsters,
            final(w).names == old(w).names,
            final(w).renderables == old(w).renderables,
            final(w).blocks_tile == old(w).blocks_tile,
            final(w).combat_stats == old(w).combat_stats,
            final(w).viewsheds == old(w).viewsheds,
            final(w).suffer_damage == old(w).suffer_damage,
            final(w).confusion == old(w).confusion,
            final(w).items == old(w).items,
            final(w).consumables == old(w).consumables,
            final(w).ranged == old(w).ranged,
            final(w).inflicts_damage == old(w).inflicts_damage,
            final(w).area_of_effect == old(w).area_of_effect,
            final(w).provides_healing == old(w).provides_healing,
            final(w).equipable == old(w).equipable,
            final(w).equipped == old(w).equipped,
            final(w).melee_bonus == old(w).melee_bonus,
            final(w).defense_bonus == old(w).defense_bonus,
            final(w).wants_melee == old(w).wants_melee,
            final(w).wants_use == old(w).wants_use,
            final(w).wants_drop == old(w).wants_drop,
            final(w).wants_remove == old(w).wants_remove,
            final(w).to_delete == old(w).to_delete,
            forall|i: int|
                0 <= i < old(w).n() ==> final(w).positions@[i] == (if picked_upto(
                    *old(w),
                    i,
                    old(w).n(),
                ) {
                    Option::<Position>::None
                } else {
                    old(w).positions@[i]
                }),
            forall|i: int|
                0 <= i < old(w).n() ==> final(w).in_backpack@[i] == pickup_backpack_after(
                    *old(w),
                    i,
                    old(w).n(),
                ),
            final(log).entries@.len() == old(log).entries@.len() + pickup_messages(
                *old(w),
                player as int,
                old(w).n(),
            ).len(),
            forall|j: int|
                0 <= j < old(log).entries@.len() ==> final(log).entries@[j] == old(
                    log,
                ).entries@[j],
            forall|j: int|
                0 <= j < pickup_messages(*old(w), player as int, old(w).n()).len()
                    ==> final(log).entries@[old(log).entries@.len() + j]@ == pickup_messages(
                    *old(w),
                    player as int,
                    old(w).n(),
                )[j],
    {
        let ghost w0 = *w;
        let ghost log0 = *log;
        let n = w.alive.len();
        let mut e: usize = 0;
        while e < n
            invariant
                w.wf(),
                w0.wf(),
                n == w.n(),
                w.n() == w0.n(),
                e <= n,
                player < n,
                pickup_intents_wf(w0, player as int),
                w.alive == w0.alive,
                w.players == w0.players,
                w.monsters == w0.monsters,
                w.names == w0.names,
                w.renderables == w0.renderables,
                w.blocks_tile == w0.blocks_tile,
                w.combat_stats == w0.combat_stats,
                w.viewsheds == w0.viewsheds,
                w.suffer_damage == w0.suffer_damage,
                w.confusion == w0.confusion,
                w.items == w0.items,
                w.consumables == w0.consumables,
                w.ranged == w0.ranged,
                w.inflicts_damage == w0.inflicts_damage,
                w.area_of_effect == w0.area_of_effect,
                w.provides_healing == w0.provides_healing,
                w.equipable == w0.equipable,
                w.equipped == w0.equipped,
                w.melee_bonus == w0.melee_bonus,
                w.defense_bonus == w0.defense_bonus,
                w.wants_melee == w0.wants_melee,
                w.wants_use == w0.wants_use,
                w.wants_drop == w0.wants_drop,
                w.wants_remove == w0.wants_remove,
                w.wants_pickup == w0.wants_pickup,
                w.to_delete == w0.to_delete,
                forall|i: int|
                    0 <= i < w0.n() ==> w.positions@[i] == (if picked_upto(w0, i, e as int) {
                        Option::<Position>::None
                    } else {
                        w0.positions@[i]
                    }),
                forall|i: int|
                    0 <= i < w0.n() ==> w.in_backpack@[i] == pickup_backpack_after(
                        w0,
                        i,
                        e as int,
                    ),
                log.entries@.len() == log0.entries@.len() + pickup_messages(
                    w0,
                    player as int,
                    e as int,
                ).len(),
                forall|j: int|
                    0 <= j < log0.entries@.len() ==> log.entries@[j] == log0.entries@[j],
                forall|j: int|
                    0 <= j < pickup_messages(w0, player as int, e as int).len()
                        ==> log.entries@[log0.entries@.len() + j]@ == pickup_messages(
                        w0,
                        player as int,
                        e as int,
                    )[j],
            decreases n - e,
        {
            let ghost wpre = *w;
            match w.wants_pickup[e] {
                Some(pickup) => {
                    w.positions[pickup.item] = None;
                    w.in_backpack[pickup.item] = Some(InBackpack { owner: pickup.collected_by });
                    if pickup.collected_by == player {
                        let item_name: String = match &w.names[pickup.item] {
                            Some(nm) => nm.name.clone(),
                            None => {
                                proof {
                                    assert(false);
                                }
                                String::new()
                            },
                        };
                        let mut msg = String::from_str("You pick up the ");
                        msg.append(item_name.as_str());
                        msg.append(".");
                        proof {
                            reveal_strlit("You pick up the ");
                            reveal_strlit(".");
                            assert(msg@ =~= "You pick up the "@
                                + w0.names@[pickup.item as int]->0.name@ + "."@);
                        }
                        log.log(msg);
                    }
                },
                None => {},
            }
            e = e + 1;
            proof {
                let ghost e1 = e as int;
                assert forall|i: int|
                    0 <= i < w0.n() implies w.positions@[i] == (if picked_upto(w0, i, e1) {
                    Option::<Position>::None
                } else {
                    w0.positions@[i]
                }) by {
                    assert(wpre.positions@[i] == (if picked_upto(w0, i, e1 - 1) {
                        Option::<Position>::None
                    } else {
                        w0.positions@[i]
                    }));
                    if picked_upto(w0, i, e1) && !picked_upto(w0, i, e1 - 1) {
                        let e2 = choose|e2: int|
                            0 <= e2 < e1 && #[trigger] w0.wants_pickup@[e2] is Some
                                && w0.wants_pickup@[e2]->0.item == i;
                        assert(e2 == e1 - 1);
                    }
                }
                assert forall|i: int|
                    0 <= i < w0.n() implies w.in_backpack@[i] == pickup_backpack_after(
                    w0,
                    i,
                    e as int,
                ) by {
                    assert(wpre.in_backpack@[i] == pickup_backpack_after(w0, i, e as int - 1));
                }
            }
        }
        // Clear every pickup intent.
        let ghost wmid = *w;
        let ghost logmid = *log;
        let mut c: usize = 0;
        while c < n
            invariant
                w.wf(),
                n == w.n(),
                c <= n,
                w.alive == wmid.alive,
                w.players == wmid.players,
                w.monsters == wmid.monsters,
                w.names == wmid.names,
                w.positions == wmid.positions,
                w.renderables == wmid.renderables,
                w.blocks_tile == wmid.blocks_tile,
                w.combat_stats == wmid.combat_stats,
                w.viewsheds == wmid.viewsheds,
                w.suffer_damage == wmid.suffer_damage,
                w.confusion == wmid.confusion,
                w.items == wmid.items,
                w.consumables == wmid.consumables,
                w.ranged == wmid.ranged,
                w.inflicts_damage == wmid.inflicts_damage,
                w.area_of_effect == wmid.area_of_effect,
                w.provides_healing == wmid.provides_healing,
                w.equipable == wmid.equipable,
                w.equipped == wmid.equipped,
                w.melee_bonus == wmid.melee_bonus,
                w.defense_bonus == wmid.defense_bonus,
                w.in_backpack == wmid.in_backpack,
                w.wants_melee == wmid.wants_melee,
                w.wants_use == wmid.wants_use,
                w.wants_drop == wmid.wants_drop,
                w.wants_remove == wmid.wants_remove,
                w.to_delete == wmid.to_delete,
                log.entries == logmid.entries,
                w.wants_pickup@.len() == n,
                forall|e2: int| 0 <= e2 < c ==> w.wants_pickup@[e2] is None,
            decreases n - c,
        {
            w.wants_pickup[c] = None;
            c = c + 1;
        }
        proof {
            assert forall|i: int|
                0 <= i < w0.n() implies w.positions@[i] == (if picked_upto(w0, i, w0.n()) {
                Option::<Position>::None
            } else {
                w0.positions@[i]
            }) by {
                assert(wmid.positions@[i] == (if picked_upto(w0, i, w0.n()) {
                    Option::<Position>::None
                } else {
                    w0.positions@[i]
                }));
            }
            assert forall|i: int|
                0 <= i < w0.n() implies w.in_backpack@[i] == pickup_backpack_after(
                w0,
                i,
                w0.n(),
            ) by {
                assert(wmid.in_backpack@[i] == pickup_backpack_after(w0, i, w0.n()));
            }
        }
    }
}


/// Every drop intent is held by a positioned dropper and names an
/// existing item — a named one when the dropper is the player.
pub open spec fn drop_intents_wf(w: World, player: int) -> bool {
    forall|e: int|
        0 <= e < w.n() && #[trigger] w.wants_drop@[e] is Some ==> {
            &&& 0 <= w.wants_drop@[e]->0.item < w.n()
            &&& w.positions@[e] is Some
            &&& (e == player ==> w.names@[w.wants_drop@[e]->0.item as int] is Some)
        }
}

/// Position of entity `i` after the first `k` drop intents ran: a dropped
/// item lands on its dropper's position at that moment.
pub open spec fn drop_pos_after(w: World, i: int, k: int) -> Option<Position>
    decreases k, 1int,
{
    if k <= 0 {
        w.positions@[i]
    } else {
        if w.wants_drop@[k - 1] is Some && w.wants_drop@[k - 1]->0.item == i {
            drop_pos_after(w, k - 1, k - 1)
        } else {
            drop_pos_after(w, i, k - 1)
        }
    }
}

/// Backpack slot of item `i` after the first `k` drop intents ran.
pub open spec fn drop_backpack_after(w: World, i: int, k: int) -> Option<InBackpack>
    decreases k,
{
    if k <= 0 {
        w.in_backpack@[i]
    } else {
        if w.wants_drop@[k - 1] is Some && w.wants_drop@[k - 1]->0.item == i {
            Option::<InBackpack>::None
        } else {
            drop_backpack_after(w, i, k - 1)
        }
    }
}

/// Messages logged by the first `k` drop intents: one per item the player
/// drops.
pub open spec fn drop_messages(w: World, player: int, k: int) -> Seq<Seq<char>>
    decreases k,
{
    if k <= 0 {
        Seq::<Seq<char>>::empty()
    } else {
        let pre = drop_messages(w, player, k - 1);
        if w.wants_drop@[k - 1] is Some && k - 1 == player {
            pre.push("You drop the "@ + w.names@[w.wants_drop@[k - 1]->0.item as int]->0.name@ + "."@)
        } else {
            pre
        }
    }
}

proof fn lemma_drop_pos_some(w: World, i: int, k: int)
    requires
        forall|e: int|
            0 <= e < w.n() && #[trigger] w.wants_drop@[e] is Some ==> w.positions@[e] is Some,
        0 <= i < w.n(),
        k <= w.n(),
        w.positions@[i] is Some,
    ensures
        drop_pos_after(w, i, k) is Some,
    decreases k, 1int,
{
    if k > 0 {
        if w.wants_drop@[k - 1] is Some && w.wants_drop@[k - 1]->0.item == i {
            lemma_drop_pos_some(w, k - 1, k - 1);
        } else {
            lemma_drop_pos_some(w, i, k - 1);
        }
    }
}

/// The drop resolver.
pub struct ItemDropSystem {}

impl ItemDropSystem {
    /// For every drop intent: place the item at the dropper's position,
    /// take it out of the backpack, and tell the player about its own
    /// drops. All drop intents are cleared afterwards.
    pub fn run(w: &mut World, log: &mut GameLog, player: usize)
        requires
            old(w).wf(),
            player < old(w).n(),
            drop_intents_wf(*old(w), player as int),
        ensures
            final(w).wf(),
            final(w).n() == old(w).n(),
            forall|e: int| 0 <= e < final(w).n() ==> final(w).wants_drop@[e] is None,
            final(w).alive == old(w).alive,
            final(w).players == old(w).players,
            final(w).monsters == old(w).monsters,
            final(w).names == old(w).names,
            final(w).renderables == old(w).renderables,
            final(w).blocks_tile == old(w).blocks_tile,
            final(w).combat_stats == old(w).combat_stats,
            final(w).viewsheds == old(w).viewsheds,
            final(w).suffer_damage == old(w).suffer_damage,
            final(w).confusion == old(w).confusion,
            final(w).items == old(w).items,
            final(w).consumables == old(w).consumables,
            final(w).ranged == old(w).ranged,
            final(w).inflicts_damage == old(w).inflicts_damage,
            final(w).area_of_effect == old(w).area_of_effect,
            final(w).provides_healing == old(w).provides_healing,
            final(w).equipable == old(w).equipable,
            final(w).equipped == old(w).equipped,
            final(w).melee_bonus == old(w).melee_bonus,
            final(w).defense_bonus == old(w).defense_bonus,
            final(w).wants_melee == old(w).wants_melee,
            final(w).wants_use == old(w).wants_use,
            final(w).wants_pickup == old(w).wants_pickup,
            final(w).wants_remove == old(w).wants_remove,
            final(w).to_delete == old(w).to_delete,
            forall|i: int|
                0 <= i < old(w).n() ==> final(w).positions@[i] == drop_pos_after(
                    *old(w),
                    i,
                    old(w).n(),
                ),
            forall|i: int|
                0 <= i < old(w).n() ==> final(w).in_backpack@[i] == drop_backpack_after(
                    *old(w),
                    i,
                    old(w).n(),
                ),
            final(log).entries@.len() == old(log).entries@.len() + drop_messages(
                *old(w),
                player as int,
                old(w).n(),
            ).len(),
            forall|j: int|
                0 <= j < old(log).entries@.len() ==> final(log).entries@[j] == old(
                    log,
                ).entries@[j],
            forall|j: int|
                0 <= j < drop_messages(*old(w), player as int, old(w).n()).len()
                    ==> final(log).entries@[old(log).entries@.len() + j]@ == drop_messages(
                    *old(w),
                    player as int,
                    old(w).n(),
                )[j],
    {
        let ghost w0 = *w;
        let ghost log0 = *log;
        let n = w.alive.len();
        let mut e: usize = 0;
        while e < n
            invariant
                w.wf(),
                w0.wf(),
                n == w.n(),
                w.n() == w0.n(),
                e <= n,
                player < n,
                drop_intents_wf(w0, player as int),
                w.alive == w0.alive,
                w.players == w0.players,
                w.monsters == w0.monsters,
                w.names == w0.names,
                w.renderables == w0.renderables,
                w.blocks_tile == w0.blocks_tile,
                w.combat_stats == w0.combat_stats,
                w.viewsheds == w0.viewsheds,
                w.suffer_damage == w0.suffer_damage,
                w.confusion == w0.confusion,
                w.items == w0.items,
                w.consumables == w0.consumables,
                w.ranged == w0.ranged,
                w.inflicts_damage == w0.inflicts_damage,
                w.area_of_effect == w0.area_of_effect,
                w.provides_healing == w0.provides_healing,
                w.equipable == w0.equipable,
                w.equipped == w0.equipped,
                w.melee_bonus == w0.melee_bonus,
                w.defense_bonus == w0.defense_bonus,
                w.wants_melee == w0.wants_melee,
                w.wants_use == w0.wants_use,
                w.wants_pickup == w0.wants_pickup,
                w.wants_remove == w0.wants_remove,
                w.wants_drop == w0.wants_drop,
                w.to_delete == w0.to_delete,
                forall|i: int|
                    0 <= i < w0.n() ==> #[trigger] w.positions@[i] == drop_pos_after(
                        w0,
                        i,
                        e as int,
                    ),
                forall|i: int|
                    0 <= i < w0.n() ==> #[trigger] w.in_backpack@[i] == drop_backpack_after(
                        w0,
                        i,
                        e as int,
                    ),
                log.entries@.len() == log0.entries@.len() + drop_messages(
                    w0,
                    player as int,
                    e as int,
                ).len(),
                forall|j: int|
                    0 <= j < log0.entries@.len() ==> log.entries@[j] == log0.entries@[j],
                forall|j: int|
                    0 <= j < drop_messages(w0, player as int, e as int).len()
                        ==> log.entries@[log0.entries@.len() + j]@ == drop_messages(
                        w0,
                        player as int,
                        e as int,
                    )[j],
            decreases n - e,
        {
            let ghost wpre = *w;
            match w.wants_drop[e] {
                Some(to_drop) => {
                    let dropper_pos: Position = match w.positions[e] {
                        Some(p) => p,
                        None => {
                            proof {
                                lemma_drop_pos_some(w0, e as int, e as int);
                            }
                            Position { x: 0, y: 0 }
                        },
                    };
                    w.positions[to_drop.item] = Some(dropper_pos);
                    w.in_backpack[to_drop.item] = None;
                    if e == player {
                        let item_name: String = match &w.names[to_drop.item] {
                            Some(nm) => nm.name.clone(),
                            None => {
                                proof {
                                    assert(false);
                                }
                                String::new()
                            },
                        };
                        let mut msg = String::from_str("You drop the ");
                        msg.append(item_name.as_str());
                        msg.append(".");
                        proof {
                            reveal_strlit("You drop the ");
                            reveal_strlit(".");
                            assert(msg@ =~= "You drop the "@
                                + w0.names@[to_drop.item as int]->0.name@ + "."@);
                        }
                        log.log(msg);
                    }
                },
                None => {},
            }
            e = e + 1;
            proof {
                assert forall|i: int|
                    0 <= i < w0.n() implies #[trigger] w.positions@[i] == drop_pos_after(
                    w0,
                    i,
                    e as int,
                ) by {
                    assert(wpre.positions@[i] == drop_pos_after(w0, i, e as int - 1));
                    if w0.wants_drop@[e as int - 1] is Some && w0.wants_drop@[e as int - 1]->0.item
                        == i {
                        assert(wpre.positions@[e as int - 1] == drop_pos_after(
                            w0,
                            e as int - 1,
                            e as int - 1,
                        ));
                    }
                }
                assert forall|i: int|
                    0 <= i < w0.n() implies #[trigger] w.in_backpack@[i] == drop_backpack_after(
                    w0,
                    i,
                    e as int,
                ) by {
                    assert(wpre.in_backpack@[i] == drop_backpack_after(w0, i, e as int - 1));
                }
            }
        }
        // Clear every drop intent.
        let ghost wmid = *w;
        let ghost logmid = *log;
        let mut c: usize = 0;
        while c < n
            invariant
                w.wf(),
                n == w.n(),
                c <= n,
                w.alive == wmid.alive,
                w.players == wmid.players,
                w.monsters == wmid.monsters,
                w.names == wmid.names,
                w.positions == wmid.positions,
                w.renderables == wmid.renderables,
                w.blocks_tile == wmid.blocks_tile,
                w.combat_stats == wmid.combat_stats,
                w.viewsheds == wmid.viewsheds,
                w.suffer_damage == wmid.suffer_damage,
                w.confusion == wmid.confusion,
                w.items == wmid.items,
                w.consumables == wmid.consumables,
                w.ranged == wmid.ranged,
                w.inflicts_damage == wmid.inflicts_damage,
                w.area_of_effect == wmid.area_of_effect,
                w.provides_healing == wmid.provides_healing,
                w.equipable == wmid.equipable,
                w.equipped == wmid.equipped,
                w.melee_bonus == wmid.melee_bonus,
                w.defense_bonus == wmid.defense_bonus,
                w.in_backpack == wmid.in_backpack,
                w.wants_melee == wmid.wants_melee,
                w.wants_use == wmid.wants_use,
                w.wants_pickup == wmid.wants_pickup,
                w.wants_remove == wmid.wants_remove,
                w.to_delete == wmid.to_delete,
                log.entries == logmid.entries,
                w.wants_drop@.len() == n,
                forall|e2: int| 0 <= e2 < c ==> w.wants_drop@[e2] is None,
            decreases n - c,
        {
            w.wants_drop[c] = None;
            c = c + 1;
        }
        proof {
            assert forall|i: int|
                0 <= i < w0.n() implies final(w).positions@[i] == drop_pos_after(
                w0,
                i,
                w0.n(),
            ) by {
                assert(wmid.positions@[i] == drop_pos_after(w0, i, w0.n()));
            }
            assert forall|i: int|
                0 <= i < w0.n() implies final(w).in_backpack@[i] == drop_backpack_after(
                w0,
                i,
                w0.n(),
            ) by {
                assert(wmid.in_backpack@[i] == drop_backpack_after(w0, i, w0.n()));
            }
        }
    }
}


/// Every unequip intent names an existing item.
pub open spec fn remove_intents_wf(w: World) -> bool {
    forall|e: int|
        0 <= e < w.n() && #[trigger] w.wants_remove@[e] is Some ==> 0 <= w.wants_remove@[e]->0.item
            < w.n()
}

/// Equipped slot of item `i` after the first `k` unequip intents ran.
pub open spec fn remove_equipped_after(w: World, i: int, k: int) -> Option<
    crate::components::Equipped,
>
    decreases k,
{
    if k <= 0 {
        w.equipped@[i]
    } else {
        if w.wants_remove@[k - 1] is Some && w.wants_remove@[k - 1]->0.item == i {
            Option::<crate::components::Equipped>::None
        } else {
            remove_equipped_after(w, i, k - 1)
        }
    }
}

/// Backpack slot of item `i` after the first `k` unequip intents ran:
/// an unequipped item goes back to its remover's backpack.
pub open spec fn remove_backpack_after(w: World, i: int, k: int) -> Option<InBackpack>
    decreases k,
{
    if k <= 0 {
        w.in_backpack@[i]
    } else {
        if w.wants_remove@[k - 1] is Some && w.wants_remove@[k - 1]->0.item == i {
            Some(InBackpack { owner: (k - 1) as usize })
        } else {
            remove_backpack_after(w, i, k - 1)
        }
    }
}

/// The unequip resolver.
pub struct ItemRemoveSystem {}

impl ItemRemoveSystem {
    /// For every unequip intent: detach the item from its slot and put it
    /// in the remover's backpack. All unequip intents are cleared
    /// afterwards.
    pub fn run(w: &mut World)
        requires
            old(w).wf(),
            remove_intents_wf(*old(w)),
        ensures
            final(w).wf(),
            final(w).n() == old(w).n(),
            forall|e: int| 0 <= e < final(w).n() ==> final(w).wants_remove@[e] is None,
            final(w).alive == old(w).alive,
            final(w).players == old(w).players,
            final(w).monsters == old(w).monsters,
            final(w).names == old(w).names,
            final(w).positions == old(w).positions,
            final(w).renderables == old(w).renderables,
            final(w).blocks_tile == old(w).blocks_tile,
            final(w).combat_stats == old(w).combat_stats,
            final(w).viewsheds == old(w).viewsheds,
            final(w).suffer_damage == old(w).suffer_damage,
            final(w).confusion == old(w).confusion,
            final(w).items == old(w).items,
            final(w).consumables == old(w).consumables,
            final(w).ranged == old(w).ranged,
            final(w).inflicts_damage == old(w).inflicts_damage,
            final(w).area_of_effect == old(w).area_of_effect,
            final(w).provides_healing == old(w).provides_healing,
            final(w).equipable == old(w).equipable,
            final(w).melee_bonus == old(w).melee_bonus,
            final(w).defense_bonus == old(w).defense_bonus,
            final(w).wants_melee == old(w).wants_melee,
            final(w).wants_use == old(w).wants_use,
            final(w).wants_pickup == old(w).wants_pickup,
            final(w).wants_drop == old(w).wants_drop,
            final(w).to_delete == old(w).to_delete,
            forall|i: int|
                0 <= i < old(w).n() ==> final(w).equipped@[i] == remove_equipped_after(
                    *old(w),
                    i,
                    old(w).n(),
                ),
            forall|i: int|
                0 <= i < old(w).n() ==> final(w).in_backpack@[i] == remove_backpack_after(
                    *old(w),
                    i,
                    old(w).n(),
                ),
    {
        let ghost w0 = *w;
        let n = w.alive.len();
        let mut e: usize = 0;
        while e < n
            invariant
                w.wf(),
                w0.wf(),
                n == w.n(),
                w.n() == w0.n(),
                e <= n,
                remove_intents_wf(w0),
                w.alive == w0.alive,
                w.players == w0.players,
                w.monsters == w0.monsters,
                w.names == w0.names,
                w.positions == w0.positions,
                w.renderables == w0.renderables,
                w.blocks_tile == w0.blocks_tile,
                w.combat_stats == w0.combat_stats,
                w.viewsheds == w0.viewsheds,
                w.suffer_damage == w0.suffer_damage,
                w.confusion == w0.confusion,
                w.items == w0.items,
                w.consumables == w0.consumables,
                w.ranged == w0.ranged,
                w.inflicts_damage == w0.inflicts_damage,
                w.area_of_effect == w0.area_of_effect,
                w.provides_healing == w0.provides_healing,
                w.equipable == w0.equipable,
                w.melee_bonus == w0.melee_bonus,
                w.defense_bonus == w0.defense_bonus,
                w.wants_melee == w0.wants_melee,
                w.wants_use == w0.wants_use,
                w.wants_pickup == w0.wants_pickup,
                w.wants_drop == w0.wants_drop,
                w.wants_remove == w0.wants_remove,
                w.to_delete == w0.to_delete,
                forall|i: int|
                    0 <= i < w0.n() ==> #[trigger] w.equipped@[i] == remove_equipped_after(
                        w0,
                        i,
                        e as int,
                    ),
                forall|i: int|
                    0 <= i < w0.n() ==> #[trigger] w.in_backpack@[i] == remove_backpack_after(
                        w0,
                        i,
                        e as int,
                    ),
            decreases n - e,
        {
            let ghost wpre = *w;
            match w.wants_remove[e] {
                Some(to_remove) => {
                    w.equipped[to_remove.item] = None;
                    w.in_backpack[to_remove.item] = Some(InBackpack { owner: e });
                },
                None => {},
            }
            e = e + 1;
            proof {
                assert forall|i: int|
                    0 <= i < w0.n() implies #[trigger] w.equipped@[i] == remove_equipped_after(
                    w0,
                    i,
                    e as int,
                ) by {
                    assert(wpre.equipped@[i] == remove_equipped_after(w0, i, e as int - 1));
                }
                assert forall|i: int|
                    0 <= i < w0.n() implies #[trigger] w.in_backpack@[i] == remove_backpack_after(
                    w0,
                    i,
                    e as int,
                ) by {
                    assert(wpre.in_backpack@[i] == remove_backpack_after(w0, i, e as int - 1));
                }
            }
        }
        // Clear every unequip intent.
        let ghost wmid = *w;
        let mut c: usize = 0;
        while c < n
            invariant
                w.wf(),
                n == w.n(),
                c <= n,
                w.alive == wmid.alive,
                w.players == wmid.players,
                w.monsters == wmid.monsters,
                w.names == wmid.names,
                w.positions == wmid.positions,
                w.renderables == wmid.renderables,
                w.blocks_tile == wmid.blocks_tile,
                w.combat_stats == wmid.combat_stats,
                w.viewsheds == wmid.viewsheds,
                w.suffer_damage == wmid.suffer_damage,
                w.confusion == wmid.confusion,
                w.items == wmid.items,
                w.consumables == wmid.consumables,
                w.ranged == wmid.ranged,
                w.inflicts_damage == wmid.inflicts_damage,
                w.area_of_effect == wmid.area_of_effect,
                w.provides_healing == wmid.provides_healing,
                w.equipable == wmid.equipable,
                w.equipped == wmid.equipped,
                w.melee_bonus == wmid.melee_bonus,
                w.defense_bonus == wmid.defense_bonus,
                w.in_backpack == wmid.in_backpack,
                w.wants_melee == wmid.wants_melee,
                w.wants_use == wmid.wants_use,
                w.wants_pickup == wmid.wants_pickup,
                w.wants_drop == wmid.wants_drop,
                w.to_delete == wmid.to_delete,
                w.wants_remove@.len() == n,
                forall|e2: int| 0 <= e2 < c ==> w.wants_remove@[e2] is None,
            decreases n - c,
        {
            w.wants_remove[c] = None;
            c = c + 1;
        }
        proof {
            assert forall|i: int|
                0 <= i < w0.n() implies final(w).equipped@[i] == remove_equipped_after(
                w0,
                i,
                w0.n(),
            ) by {
                assert(wmid.equipped@[i] == remove_equipped_after(w0, i, w0.n()));
            }
            assert forall|i: int|
                0 <= i < w0.n() implies final(w).in_backpack@[i] == remove_backpack_after(
                w0,
                i,
                w0.n(),
            ) by {
                assert(wmid.in_backpack@[i] == remove_backpack_after(w0, i, w0.n()));
            }
        }
    }
}


/// Entity `u` holds a use intent and has combat stats, so its intent is
/// processed this tick.
pub open spec fn use_active(w: World, u: int) -> bool {
    w.wants_use@[u] is Some && w.combat_stats@[u] is Some
}

/// The item entity `u` wants to use.
pub open spec fn use_item_of(w: World, u: int) -> int {
    w.wants_use@[u]->0.item as int
}

/// A cell strictly inside the map border; blast areas are clipped to it.
pub open spec fn interior_cell(m: GameMap, p: Point) -> bool {
    p.x > 0 && p.x < m.width - 1 && p.y > 0 && p.y < m.height - 1
}

/// Occupants of the first `k` blast tiles that lie in the map interior,
/// in blast-tile order.
pub open spec fn aoe_occupants(m: GameMap, tiles: Seq<Point>, k: int) -> Seq<usize>
    decreases k,
{
    if k <= 0 {
        Seq::<usize>::empty()
    } else {
        aoe_occupants(m, tiles, k - 1) + (if interior_cell(m, tiles[k - 1]) {
            m.tile_content@[m.spec_idx(tiles[k - 1].x as int, tiles[k - 1].y as int)]@
        } else {
            Seq::<usize>::empty()
        })
    }
}

/// The entities a use intent resolves against: the user alone when aimed
/// at nothing, the occupants of the aimed tile, or — for an item with an
/// area of effect — the occupants of every visible tile within the blast
/// radius of the aimed point, clipped to the map interior.
pub open spec fn spec_targets(w: World, m: GameMap, u: int) -> Seq<usize> {
    let intent = w.wants_use@[u]->0;
    if intent.target is None {
        seq![u as usize]
    } else {
        let pt = intent.target->0;
        if w.area_of_effect@[intent.item as int] is Some {
            let radius = w.area_of_effect@[intent.item as int]->0.radius as int;
            let blast = fov_tiles(m, pt.x as int, pt.y as int, radius);
            aoe_occupants(m, blast, blast.len() as int)
        } else {
            m.tile_content@[m.spec_idx(pt.x as int, pt.y as int)]@
        }
    }
}

/// Every occupant the map index lists is an entity of the world.
pub open spec fn content_valid(m: GameMap, w: World) -> bool {
    forall|idx: int, j: int|
        0 <= idx < m.tile_content@.len() && 0 <= j < m.tile_content@[idx]@.len()
            ==> #[trigger] m.tile_content@[idx]@[j] < w.n()
}

/// Collect the targets of user `u`'s use intent.
pub fn find_targets(w: &World, map: &GameMap, u: usize) -> (r: Vec<usize>)
    requires
        w.wf(),
        map.wf(),
        u < w.n(),
        w.wants_use@[u as int] is Some,
        0 <= use_item_of(*w, u as int) < w.n(),
        w.wants_use@[u as int]->0.target matches Some(pt) ==> map.in_bounds(
            pt.x as int,
            pt.y as int,
        ),
        w.area_of_effect@[use_item_of(*w, u as int)] is Some ==> w.area_of_effect@[use_item_of(
            *w,
            u as int,
        )]->0.radius >= 0,
    ensures
        r@ == spec_targets(*w, *map, u as int),
{
    let mut r: Vec<usize> = Vec::new();
    let useitem = match w.wants_use[u] {
        Some(ui) => ui,
        None => {
            proof {
                assert(false);
            }
            return r;
        },
    };
    match useitem.target {
        None => {
            r.push(u);
            proof {
                assert(r@ =~= spec_targets(*w, *map, u as int));
            }
        },
        Some(pt) => {
            match w.area_of_effect[useitem.item] {
                None => {
                    let idx = map.xy_idx(pt.x, pt.y);
                    let m = map.tile_content[idx].len();
                    let mut j: usize = 0;
                    while j < m
                        invariant
                            map.wf(),
                            idx < map.tile_content@.len(),
                            m == map.tile_content@[idx as int]@.len(),
                            j <= m,
                            r@ == map.tile_content@[idx as int]@.subrange(0, j as int),
                        decreases m - j,
                    {
                        let mob = map.tile_content[idx][j];
                        r.push(mob);
                        proof {
                            assert(r@ =~= map.tile_content@[idx as int]@.subrange(
                                0,
                                j as int + 1,
                            ));
                        }
                        j = j + 1;
                    }
                    proof {
                        assert(map.tile_content@[idx as int]@.subrange(0, m as int)
                            =~= map.tile_content@[idx as int]@);
                    }
                },
                Some(area_effect) => {
                    let blast = crate::visibility_system::field_of_view(
                        map,
                        pt.x,
                        pt.y,
                        area_effect.radius,
                    );
                    let bn = blast.len();
                    let mut k: usize = 0;
                    while k < bn
                        invariant
                            map.wf(),
                            bn == blast@.len(),
                            k <= bn,
                            forall|t: int|
                                0 <= t < blast@.len() ==> map.in_bounds(
                                    #[trigger] blast@[t].x as int,
                                    blast@[t].y as int,
                                ) || !interior_cell(*map, blast@[t]),
                            r@ == aoe_occupants(*map, blast@, k as int),
                        decreases bn - k,
                    {
                        let p = blast[k];
                        if p.x > 0 && p.x < map.width - 1 && p.y > 0 && p.y < map.height - 1 {
                            let idx = map.xy_idx(p.x, p.y);
                            let m = map.tile_content[idx].len();
                            let mut j: usize = 0;
                            while j < m
                                invariant
                                    map.wf(),
                                    idx < map.tile_content@.len(),
                                    idx == map.spec_idx(blast@[k as int].x as int, blast@[k as int].y as int),
                                    k < bn,
                                    bn == blast@.len(),
                                    interior_cell(*map, blast@[k as int]),
                                    m == map.tile_content@[idx as int]@.len(),
                                    j <= m,
                                    r@ == aoe_occupants(*map, blast@, k as int)
                                        + map.tile_content@[idx as int]@.subrange(0, j as int),
                                decreases m - j,
                            {
                                let mob = map.tile_content[idx][j];
                                r.push(mob);
                                proof {
                                    assert(aoe_occupants(*map, blast@, k as int)
                                        + map.tile_content@[idx as int]@.subrange(0, j as int + 1)
                                        =~= r@);
                                }
                                j = j + 1;
                            }
                            proof {
                                assert(map.tile_content@[idx as int]@.subrange(0, m as int)
                                    =~= map.tile_content@[idx as int]@);
                                assert(r@ =~= aoe_occupants(*map, blast@, k as int + 1));
                            }
                        } else {
                            proof {
                                assert(r@ =~= aoe_occupants(*map, blast@, k as int + 1));
                            }
                        }
                        k = k + 1;
                    }
                },
            }
        },
    }
    r
}


proof fn lemma_aoe_valid(m: GameMap, w: World, tiles: Seq<Point>, k: int)
    requires
        m.wf(),
        content_valid(m, w),
    ensures
        forall|i: int|
            0 <= i < aoe_occupants(m, tiles, k).len() ==> #[trigger] aoe_occupants(m, tiles, k)[i]
                < w.n(),
    decreases k,
{
    if k > 0 {
        lemma_aoe_valid(m, w, tiles, k - 1);
        let pre = aoe_occupants(m, tiles, k - 1);
        let cur = aoe_occupants(m, tiles, k);
        if interior_cell(m, tiles[k - 1]) {
            let idx = m.spec_idx(tiles[k - 1].x as int, tiles[k - 1].y as int);
            assert(0 <= idx < m.tile_content@.len()) by {
                let wi = m.width as int;
                let hi = m.height as int;
                let x = tiles[k - 1].x as int;
                let y = tiles[k - 1].y as int;
                assert(0 <= y * wi + x < wi * hi) by (nonlinear_arith)
                    requires
                        0 <= x < wi,
                        0 <= y < hi,
                ;
            }
            assert forall|i: int| 0 <= i < cur.len() implies #[trigger] cur[i] < w.n() by {
                if i < pre.len() {
                    assert(cur[i] == pre[i]);
                } else {
                    assert(cur[i] == m.tile_content@[idx]@[i - pre.len()]);
                }
            }
        }
    }
}

/// Every resolved target is an entity of the world.
pub proof fn lemma_targets_valid(w: World, m: GameMap, u: int)
    requires
        m.wf(),
        content_valid(m, w),
        0 <= u < w.n(),
        w.wants_use@[u] is Some,
        w.wants_use@[u]->0.target matches Some(pt) ==> m.in_bounds(pt.x as int, pt.y as int),
    ensures
        forall|i: int|
            0 <= i < spec_targets(w, m, u).len() ==> #[trigger] spec_targets(
                w,
                m,
                u,
            )[i] < w.n(),
{
    let intent = w.wants_use@[u]->0;
    if intent.target is None {
    } else {
        let pt = intent.target->0;
        if w.area_of_effect@[intent.item as int] is Some {
            let radius = w.area_of_effect@[intent.item as int]->0.radius as int;
            let blast = fov_tiles(m, pt.x as int, pt.y as int, radius);
            lemma_aoe_valid(m, w, blast, blast.len() as int);
        } else {
            let idx = m.spec_idx(pt.x as int, pt.y as int);
            assert(0 <= idx < m.tile_content@.len()) by {
                let wi = m.width as int;
                let hi = m.height as int;
                let x = pt.x as int;
                let y = pt.y as int;
                assert(0 <= y * wi + x < wi * hi) by (nonlinear_arith)
                    requires
                        0 <= x < wi,
                        0 <= y < hi,
                ;
            }
        }
    }
}

/// User `u` is equipping its item this tick.
pub open spec fn equips(w: World, u: int) -> bool {
    use_active(w, u) && w.equipable@[use_item_of(w, u)] is Some
}

/// The wielder of an equip: the first resolved target.
pub open spec fn wielder_of(w: World, m: GameMap, u: int) -> int {
    spec_targets(w, m, u)[0] as int
}

/// The slot the used item goes into.
pub open spec fn slot_of(w: World, u: int) -> crate::components::EquipmentSlot {
    w.equipable@[use_item_of(w, u)]->0.slot
}

/// The item deals damage to each target.
pub open spec fn use_has_damage(w: World, u: int) -> bool {
    w.inflicts_damage@[use_item_of(w, u)] is Some
}

/// The item carries a confusion payload.
pub open spec fn use_has_conf(w: World, u: int) -> bool {
    w.confusion@[use_item_of(w, u)] is Some
}

/// The item heals its user.
pub open spec fn use_has_heal(w: World, u: int) -> bool {
    w.provides_healing@[use_item_of(w, u)] is Some
}

/// Whether the use counts as spent: a damage or confusion item is spent
/// only when some target existed; anything else is spent by being used.
pub open spec fn used_up(w: World, m: GameMap, u: int) -> bool {
    if use_has_damage(w, u) || use_has_conf(w, u) {
        spec_targets(w, m, u).len() > 0
    } else {
        true
    }
}

/// Whether the item is destroyed: spent, consumable, and not equipment.
pub open spec fn use_consumed(w: World, m: GameMap, u: int) -> bool {
    used_up(w, m, u) && w.consumables@[use_item_of(w, u)] is Some && w.equipable@[
        use_item_of(w, u)] is None
}

/// Damage entries entity `d` receives from the first `t` targets of one
/// use: one entry per occurrence of `d` in the target list.
pub open spec fn repeat_hits(targets: Seq<usize>, d: int, dmg: i32, t: int) -> Seq<i32>
    decreases t,
{
    if t <= 0 {
        Seq::<i32>::empty()
    } else {
        repeat_hits(targets, d, dmg, t - 1) + (if targets[t - 1] == d {
            seq![dmg]
        } else {
            Seq::<i32>::empty()
        })
    }
}

/// The health block after one self-heal, capped at max health.
pub open spec fn healed_stats(stats: CombatStats, heal: int) -> CombatStats {
    CombatStats {
        max_hp: stats.max_hp,
        hp: (if stats.hp + heal < stats.max_hp {
            stats.hp + heal
        } else {
            stats.max_hp as int
        }) as i32,
        defense: stats.defense,
        power: stats.power,
    }
}


/// Queue one pending-damage entry per resolved target and tell the
/// player user about each hit.
pub fn inflict_on_targets(
    w: &mut World,
    log: &mut GameLog,
    targets: &Vec<usize>,
    item: usize,
    u: usize,
    player: usize,
)
    requires
        old(w).wf(),
        item < old(w).n(),
        old(w).inflicts_damage@[item as int] is Some,
        forall|t: int| 0 <= t < targets@.len() ==> #[trigger] targets@[t] < old(w).n(),
    ensures
        final(w).wf(),
        final(w).n() == old(w).n(),
        final(w).alive == old(w).alive,
        final(w).players == old(w).players,
        final(w).monsters == old(w).monsters,
        final(w).names == old(w).names,
        final(w).positions == old(w).positions,
        final(w).renderables == old(w).renderables,
        final(w).blocks_tile == old(w).blocks_tile,
        final(w).combat_stats == old(w).combat_stats,
        final(w).viewsheds == old(w).viewsheds,
        final(w).confusion == old(w).confusion,
        final(w).items == old(w).items,
        final(w).consumables == old(w).consumables,
        final(w).ranged == old(w).ranged,
        final(w).inflicts_damage == old(w).inflicts_damage,
        final(w).area_of_effect == old(w).area_of_effect,
        final(w).provides_healing == old(w).provides_healing,
        final(w).equipable == old(w).equipable,
        final(w).equipped == old(w).equipped,
        final(w).melee_bonus == old(w).melee_bonus,
        final(w).defense_bonus == old(w).defense_bonus,
        final(w).in_backpack == old(w).in_backpack,
        final(w).wants_melee == old(w).wants_melee,
        final(w).wants_use == old(w).wants_use,
        final(w).wants_pickup == old(w).wants_pickup,
        final(w).wants_drop == old(w).wants_drop,
        final(w).wants_remove == old(w).wants_remove,
        final(w).to_delete == old(w).to_delete,
        forall|d: int|
            0 <= d < old(w).n() ==> final(w).suffer_seq(d) == old(w).suffer_seq(d) + repeat_hits(
                targets@,
                d,
                old(w).inflicts_damage@[item as int]->0.damage,
                targets@.len() as int,
            ),
        forall|d: int|
            0 <= d < old(w).n() ==> (#[trigger] final(w).suffer_damage@[d] is Some == (old(
                w,
            ).suffer_damage@[d] is Some || repeat_hits(
                targets@,
                d,
                old(w).inflicts_damage@[item as int]->0.damage,
                targets@.len() as int,
            ).len() > 0)),
        final(log).entries@.len() == old(log).entries@.len() + damage_msgs(
            *old(w),
            targets@,
            u as int,
            item as int,
            player as int,
            targets@.len() as int,
        ).len(),
        forall|j2: int|
            0 <= j2 < old(log).entries@.len() ==> #[trigger] final(log).entries@[j2] == old(
                log,
            ).entries@[j2],
        forall|q: int|
            0 <= q < damage_msgs(
                *old(w),
                targets@,
                u as int,
                item as int,
                player as int,
                targets@.len() as int,
            ).len() ==> final(log).entries@[old(log).entries@.len() + q]@ == damage_msgs(
                *old(w),
                targets@,
                u as int,
                item as int,
                player as int,
                targets@.len() as int,
            )[q],
{
    let ghost w0 = *w;
    let ghost log1 = *log;
    let n = w.alive.len();
    let damage = match w.inflicts_damage[item] {
        Some(d) => d,
        None => {
            proof {
                assert(false);
            }
            crate::components::InflictsDamage { damage: 0 }
        },
    };
            let tn = targets.len();
            let mut ti: usize = 0;
            while ti < tn
                invariant
                    w.wf(),
                    n == w.n(),
                    w.n() == w0.n(),
                    ti <= tn,
                    tn == targets@.len(),
                    item < n,
                    forall|t2: int| 0 <= t2 < targets@.len() ==> #[trigger] targets@[t2] < n,
                    damage == w0.inflicts_damage@[item as int]->0,
                    w.alive == w0.alive,
                    w.players == w0.players,
                    w.monsters == w0.monsters,
                    w.names == w0.names,
                    w.positions == w0.positions,
                    w.renderables == w0.renderables,
                    w.blocks_tile == w0.blocks_tile,
                    w.combat_stats == w0.combat_stats,
                    w.viewsheds == w0.viewsheds,
                    w.confusion == w0.confusion,
                    w.items == w0.items,
                    w.consumables == w0.consumables,
                    w.ranged == w0.ranged,
                    w.inflicts_damage == w0.inflicts_damage,
                    w.area_of_effect == w0.area_of_effect,
                    w.provides_healing == w0.provides_healing,
                    w.equipable == w0.equipable,
                    w.equipped == w0.equipped,
                    w.melee_bonus == w0.melee_bonus,
                    w.defense_bonus == w0.defense_bonus,
                    w.in_backpack == w0.in_backpack,
                    w.wants_melee == w0.wants_melee,
                    w.wants_use == w0.wants_use,
                    w.wants_pickup == w0.wants_pickup,
                    w.wants_drop == w0.wants_drop,
                    w.wants_remove == w0.wants_remove,
                    w.to_delete == w0.to_delete,
                    w.suffer_damage@.len() == w0.n(),
                    forall|d: int|
                        0 <= d < w0.n() ==> w.suffer_seq(d) == w0.suffer_seq(d) + repeat_hits(
                            targets@,
                            d,
                            damage.damage,
                            ti as int,
                        ),
                    forall|d: int|
                        0 <= d < w0.n() ==> (#[trigger] w.suffer_damage@[d] is Some == (
                        w0.suffer_damage@[d] is Some || repeat_hits(
                            targets@,
                            d,
                            damage.damage,
                            ti as int,
                        ).len() > 0)),
                    log.entries@.len() == log1.entries@.len() + damage_msgs(
                        w0,
                        targets@,
                        u as int,
                        item as int,
                        player as int,
                        ti as int,
                    ).len(),
                    forall|j2: int|
                        0 <= j2 < log1.entries@.len() ==> #[trigger] log.entries@[j2]
                            == log1.entries@[j2],
                    forall|q: int|
                        0 <= q < damage_msgs(
                            w0,
                            targets@,
                            u as int,
                            item as int,
                            player as int,
                            ti as int,
                        ).len() ==> log.entries@[log1.entries@.len() + q]@ == damage_msgs(
                            w0,
                            targets@,
                            u as int,
                            item as int,
                            player as int,
                            ti as int,
                        )[q],
                decreases tn - ti,
            {
                let ghost wpre = *w;
                let ghost logpre_d = *log;
                let mob = targets[ti];
                SufferDamage::new_damage(&mut w.suffer_damage, mob, damage.damage);
                if u == player {
                    match (&w.names[mob], &w.names[item]) {
                        (Some(mob_name), Some(item_name)) => {
                            let mut msg = String::from_str("You use ");
                            msg.append(item_name.name.as_str());
                            msg.append(" on ");
                            msg.append(mob_name.name.as_str());
                            msg.append(", inflicting ");
                            let ds = crate::strfmt::i32_to_string(damage.damage);
                            msg.append(ds.as_str());
                            msg.append(" hp.");
                            proof {
                                reveal_strlit("You use ");
                                reveal_strlit(" on ");
                                reveal_strlit(", inflicting ");
                                reveal_strlit(" hp.");
                                assert(msg@ =~= "You use "@ + w0.names@[item as int]->0.name@
                                    + " on "@ + w0.names@[targets@[ti as int] as int]->0.name@
                                    + ", inflicting "@ + crate::strfmt::i32_dec(
                                    w0.inflicts_damage@[item as int]->0.damage as int,
                                ) + " hp."@);
                            }
                            log.log(msg);
                        },
                        _ => {},
                    }
                }
                ti = ti + 1;
                proof {
                    let ghost dm = damage_msgs(
                        w0,
                        targets@,
                        u as int,
                        item as int,
                        player as int,
                        ti as int,
                    );
                    let ghost dmpre = damage_msgs(
                        w0,
                        targets@,
                        u as int,
                        item as int,
                        player as int,
                        ti as int - 1,
                    );
                    assert forall|q: int|
                        0 <= q < dm.len() implies log.entries@[log1.entries@.len() + q]@
                        == dm[q] by {
                        if q < dmpre.len() {
                            assert(logpre_d.entries@[log1.entries@.len() + q]@ == dmpre[q]);
                        }
                    }
                }
                proof {
                    assert forall|d: int|
                        0 <= d < w0.n() implies w.suffer_seq(d) == w0.suffer_seq(d) + repeat_hits(
                        targets@,
                        d,
                        damage.damage,
                        ti as int,
                    ) by {
                        assert(wpre.suffer_seq(d) == w0.suffer_seq(d) + repeat_hits(
                            targets@,
                            d,
                            damage.damage,
                            ti as int - 1,
                        ));
                    }
                }
            }

}

/// Attach the confusion status to every resolved target and tell the
/// player user about each.
pub fn confuse_targets(
    w: &mut World,
    log: &mut GameLog,
    targets: &Vec<usize>,
    item: usize,
    u: usize,
    player: usize,
    turns: i32,
)
    requires
        old(w).wf(),
        item < old(w).n(),
        forall|t: int| 0 <= t < targets@.len() ==> #[trigger] targets@[t] < old(w).n(),
    ensures
        final(w).wf(),
        final(w).n() == old(w).n(),
        use_frame(*old(w), *final(w)),
        final(w).combat_stats == old(w).combat_stats,
        final(w).suffer_damage == old(w).suffer_damage,
        final(w).equipped == old(w).equipped,
        final(w).in_backpack == old(w).in_backpack,
        final(w).to_delete == old(w).to_delete,
        forall|j: int|
            0 <= j < old(w).n() ==> #[trigger] final(w).confusion@[j] == (if targets@.contains(
                j as usize,
            ) {
                Some(Confusion { turns })
            } else {
                old(w).confusion@[j]
            }),
        final(log).entries@.len() == old(log).entries@.len() + confusion_msgs(
            *old(w),
            targets@,
            u as int,
            item as int,
            player as int,
            targets@.len() as int,
        ).len(),
        forall|j2: int|
            0 <= j2 < old(log).entries@.len() ==> #[trigger] final(log).entries@[j2] == old(
                log,
            ).entries@[j2],
        forall|q: int|
            0 <= q < confusion_msgs(
                *old(w),
                targets@,
                u as int,
                item as int,
                player as int,
                targets@.len() as int,
            ).len() ==> final(log).entries@[old(log).entries@.len() + q]@ == confusion_msgs(
                *old(w),
                targets@,
                u as int,
                item as int,
                player as int,
                targets@.len() as int,
            )[q],
{
    let ghost w0 = *w;
    let ghost log2 = *log;
    let n = w.alive.len();
    let confusion = Confusion { turns };
            let tn = targets.len();
            let mut ti: usize = 0;
            while ti < tn
                invariant
                    w.wf(),
                    n == w.n(),
                    w.n() == w0.n(),
                    ti <= tn,
                    tn == targets@.len(),
                    item < n,
                    forall|t2: int| 0 <= t2 < targets@.len() ==> #[trigger] targets@[t2] < n,
                    w.alive == w0.alive,
                    w.players == w0.players,
                    w.monsters == w0.monsters,
                    w.names == w0.names,
                    w.positions == w0.positions,
                    w.renderables == w0.renderables,
                    w.blocks_tile == w0.blocks_tile,
                    w.combat_stats == w0.combat_stats,
                    w.viewsheds == w0.viewsheds,
                    w.suffer_damage == w0.suffer_damage,
                    w.items == w0.items,
                    w.consumables == w0.consumables,
                    w.ranged == w0.ranged,
                    w.inflicts_damage == w0.inflicts_damage,
                    w.area_of_effect == w0.area_of_effect,
                    w.provides_healing == w0.provides_healing,
                    w.equipable == w0.equipable,
                    w.equipped == w0.equipped,
                    w.melee_bonus == w0.melee_bonus,
                    w.defense_bonus == w0.defense_bonus,
                    w.in_backpack == w0.in_backpack,
                    w.wants_melee == w0.wants_melee,
                    w.wants_use == w0.wants_use,
                    w.wants_pickup == w0.wants_pickup,
                    w.wants_drop == w0.wants_drop,
                    w.wants_remove == w0.wants_remove,
                    w.to_delete == w0.to_delete,
                    w.names == w0.names,
                    w.confusion@.len() == w0.n(),
                    forall|j2: int|
                        0 <= j2 < w0.n() ==> #[trigger] w.confusion@[j2] == (if targets@.subrange(
                            0,
                            ti as int,
                        ).contains(j2 as usize) {
                            Some(Confusion { turns: turns })
                        } else {
                            w0.confusion@[j2]
                        }),
                    log.entries@.len() == log2.entries@.len() + confusion_msgs(
                        w0,
                        targets@,
                        u as int,
                        item as int,
                        player as int,
                        ti as int,
                    ).len(),
                    forall|j2: int|
                        0 <= j2 < log2.entries@.len() ==> #[trigger] log.entries@[j2]
                            == log2.entries@[j2],
                    forall|q: int|
                        0 <= q < confusion_msgs(
                            w0,
                            targets@,
                            u as int,
                            item as int,
                            player as int,
                            ti as int,
                        ).len() ==> log.entries@[log2.entries@.len() + q]@ == confusion_msgs(
                            w0,
                            targets@,
                            u as int,
                            item as int,
                            player as int,
                            ti as int,
                        )[q],
                decreases tn - ti,
            {
                let ghost wpre = *w;
                let ghost logpre_c = *log;
                let mob = targets[ti];
                w.confusion[mob] = Some(Confusion { turns: turns });
                if u == player {
                    match (&w.names[mob], &w.names[item]) {
                        (Some(mob_name), Some(item_name)) => {
                            let mut msg = String::from_str("You use ");
                            msg.append(item_name.name.as_str());
                            msg.append(" on ");
                            msg.append(mob_name.name.as_str());
                            msg.append(", confusing them.");
                            proof {
                                reveal_strlit("You use ");
                                reveal_strlit(" on ");
                                reveal_strlit(", confusing them.");
                                assert(msg@ =~= "You use "@ + w0.names@[item as int]->0.name@
                                    + " on "@ + w0.names@[targets@[ti as int] as int]->0.name@
                                    + ", confusing them."@);
                            }
                            log.log(msg);
                        },
                        _ => {},
                    }
                }
                ti = ti + 1;
                proof {
                    let ghost cm = confusion_msgs(
                        w0,
                        targets@,
                        u as int,
                        item as int,
                        player as int,
                        ti as int,
                    );
                    let ghost cmpre = confusion_msgs(
                        w0,
                        targets@,
                        u as int,
                        item as int,
                        player as int,
                        ti as int - 1,
                    );
                    assert forall|q: int|
                        0 <= q < cm.len() implies log.entries@[log2.entries@.len() + q]@
                        == cm[q] by {
                        if q < cmpre.len() {
                            assert(logpre_c.entries@[log2.entries@.len() + q]@ == cmpre[q]);
                        }
                    }
                }
                proof {
                    assert forall|j2: int|
                        0 <= j2 < w0.n() implies #[trigger] w.confusion@[j2] == (if
                    targets@.subrange(0, ti as int).contains(j2 as usize) {
                        Some(Confusion { turns: turns })
                    } else {
                        w0.confusion@[j2]
                    }) by {
                        assert(wpre.confusion@[j2] == (if targets@.subrange(
                            0,
                            ti as int - 1,
                        ).contains(j2 as usize) {
                            Some(Confusion { turns: turns })
                        } else {
                            w0.confusion@[j2]
                        }));
                        let pre_sub = targets@.subrange(0, ti as int - 1);
                        let cur_sub = targets@.subrange(0, ti as int);
                        assert(cur_sub == pre_sub.push(targets@[ti as int - 1]));
                        if cur_sub.contains(j2 as usize) && j2 != targets@[ti as int - 1] as int {
                            let x = choose|x: int| 0 <= x < cur_sub.len() && cur_sub[x] == j2 as usize;
                            assert(pre_sub.contains(j2 as usize)) by {
                                assert(cur_sub[x] == j2 as usize);
                                assert(x < pre_sub.len());
                                assert(pre_sub[x] == j2 as usize);
                            }
                        }
                        if pre_sub.contains(j2 as usize) {
                            let x = choose|x: int| 0 <= x < pre_sub.len() && pre_sub[x] == j2 as usize;
                            assert(cur_sub[x] == j2 as usize);
                            assert(cur_sub.contains(j2 as usize));
                        }
                        if j2 == targets@[ti as int - 1] as int {
                            assert(cur_sub[ti as int - 1] == j2 as usize);
                            assert(cur_sub.contains(j2 as usize));
                        }
                    }
                }
            }
            proof {
                assert(targets@.subrange(0, tn as int) =~= targets@);
            }

}


/// Raise the user's own health by the item's heal amount, capped at max
/// health, and tell the player user about the drink.
pub fn heal_user(w: &mut World, log: &mut GameLog, item: usize, u: usize, player: usize)
    requires
        old(w).wf(),
        item < old(w).n(),
        u < old(w).n(),
        old(w).provides_healing@[item as int] is Some,
        old(w).combat_stats@[u as int] is Some,
        i32::MIN <= old(w).combat_stats@[u as int]->0.hp + old(w).provides_healing@[item
            as int]->0.heal_amount <= i32::MAX,
    ensures
        final(w).wf(),
        final(w).n() == old(w).n(),
        use_frame(*old(w), *final(w)),
        final(w).suffer_damage == old(w).suffer_damage,
        final(w).confusion == old(w).confusion,
        final(w).equipped == old(w).equipped,
        final(w).in_backpack == old(w).in_backpack,
        final(w).to_delete == old(w).to_delete,
        forall|j: int|
            0 <= j < old(w).n() ==> #[trigger] final(w).combat_stats@[j] == (if j == u {
                Some(
                    healed_stats(
                        old(w).combat_stats@[u as int]->0,
                        old(w).provides_healing@[item as int]->0.heal_amount as int,
                    ),
                )
            } else {
                old(w).combat_stats@[j]
            }),
        final(log).entries@.len() == old(log).entries@.len() + (if u == player && old(w).names@[item
            as int] is Some {
            1int
        } else {
            0int
        }),
        forall|j2: int|
            0 <= j2 < old(log).entries@.len() ==> #[trigger] final(log).entries@[j2] == old(
                log,
            ).entries@[j2],
        (u == player && old(w).names@[item as int] is Some) ==> final(log).entries@.last()@
            == "You drink the "@ + old(w).names@[item as int]->0.name@ + ", healing "@
            + crate::strfmt::i32_dec(old(w).provides_healing@[item as int]->0.heal_amount as int)
            + " hp."@,
{
    let ghost w0 = *w;
    match w.provides_healing[item] {
        Some(healer) => {
            match w.combat_stats[u] {
                Some(stats) => {
                    let sum: i64 = (stats.hp as i64) + (healer.heal_amount as i64);
                    let capped: i64 = if sum < (stats.max_hp as i64) {
                        sum
                    } else {
                        stats.max_hp as i64
                    };
                    let new_stats = CombatStats {
                        max_hp: stats.max_hp,
                        hp: capped as i32,
                        defense: stats.defense,
                        power: stats.power,
                    };
                    w.combat_stats[u] = Some(new_stats);
                    if u == player {
                        match &w.names[item] {
                            Some(nm) => {
                                let mut msg = String::from_str("You drink the ");
                                msg.append(nm.name.as_str());
                                msg.append(", healing ");
                                let hs = crate::strfmt::i32_to_string(healer.heal_amount);
                                msg.append(hs.as_str());
                                msg.append(" hp.");
                                proof {
                                    reveal_strlit("You drink the ");
                                    reveal_strlit(", healing ");
                                    reveal_strlit(" hp.");
                                    assert(msg@ =~= "You drink the "@
                                        + w0.names@[item as int]->0.name@ + ", healing "@
                                        + crate::strfmt::i32_dec(
                                        w0.provides_healing@[item as int]->0.heal_amount as int,
                                    ) + " hp."@);
                                }
                                log.log(msg);
                            },
                            None => {},
                        }
                    }
                },
                None => {
                    proof {
                        assert(false);
                    }
                },
            }
        },
        None => {},
    }


}

/// The tables no step of item use ever touches.
pub open spec fn use_frame(a: World, b: World) -> bool {
    &&& b.alive == a.alive
    &&& b.players == a.players
    &&& b.monsters == a.monsters
    &&& b.names == a.names
    &&& b.positions == a.positions
    &&& b.renderables == a.renderables
    &&& b.blocks_tile == a.blocks_tile
    &&& b.viewsheds == a.viewsheds
    &&& b.items == a.items
    &&& b.consumables == a.consumables
    &&& b.ranged == a.ranged
    &&& b.inflicts_damage == a.inflicts_damage
    &&& b.area_of_effect == a.area_of_effect
    &&& b.provides_healing == a.provides_healing
    &&& b.equipable == a.equipable
    &&& b.melee_bonus == a.melee_bonus
    &&& b.defense_bonus == a.defense_bonus
    &&& b.wants_melee == a.wants_melee
    &&& b.wants_use == a.wants_use
    &&& b.wants_pickup == a.wants_pickup
    &&& b.wants_drop == a.wants_drop
    &&& b.wants_remove == a.wants_remove
}

/// Messages of the unequip scan: one line per item of `0..k` the player
/// wielder held in the contested slot, in item order.
pub open spec fn unequip_msgs(
    w: World,
    wielder: int,
    slot: crate::components::EquipmentSlot,
    player: int,
    k: int,
) -> Seq<Seq<char>>
    decreases k,
{
    if k <= 0 {
        Seq::<Seq<char>>::empty()
    } else {
        let pre = unequip_msgs(w, wielder, slot, player, k - 1);
        if w.equipped@[k - 1] is Some && w.equipped@[k - 1]->0.owner as int == wielder
            && w.equipped@[k - 1]->0.slot == slot && wielder == player && w.names@[k - 1] is Some {
            pre.push("You unequip "@ + w.names@[k - 1]->0.name@ + "."@)
        } else {
            pre
        }
    }
}

/// Messages of the damage pass: one line per target the player user hits,
/// in target order.
pub open spec fn damage_msgs(
    w: World,
    targets: Seq<usize>,
    u: int,
    item: int,
    player: int,
    t: int,
) -> Seq<Seq<char>>
    decreases t,
{
    if t <= 0 {
        Seq::<Seq<char>>::empty()
    } else {
        let pre = damage_msgs(w, targets, u, item, player, t - 1);
        if u == player && w.names@[targets[t - 1] as int] is Some && w.names@[item] is Some {
            pre.push(
                "You use "@ + w.names@[item]->0.name@ + " on "@ + w.names@[targets[t
                    - 1] as int]->0.name@ + ", inflicting "@ + crate::strfmt::i32_dec(
                    w.inflicts_damage@[item]->0.damage as int,
                ) + " hp."@,
            )
        } else {
            pre
        }
    }
}

/// Messages of the confusion pass: one line per target the player user
/// stuns, in target order.
pub open spec fn confusion_msgs(
    w: World,
    targets: Seq<usize>,
    u: int,
    item: int,
    player: int,
    t: int,
) -> Seq<Seq<char>>
    decreases t,
{
    if t <= 0 {
        Seq::<Seq<char>>::empty()
    } else {
        let pre = confusion_msgs(w, targets, u, item, player, t - 1);
        if u == player && w.names@[targets[t - 1] as int] is Some && w.names@[item] is Some {
            pre.push(
                "You use "@ + w.names@[item]->0.name@ + " on "@ + w.names@[targets[t
                    - 1] as int]->0.name@ + ", confusing them."@,
            )
        } else {
            pre
        }
    }
}

/// Resolve one use intent: targeting, exclusive equip, per-target damage
/// and confusion, self-healing, and consumption of spent consumables.
/// The intent itself is left in place; the caller clears the storage once
/// the whole pass is done.
#[verifier::rlimit(100)]
pub fn use_one(w: &mut World, log: &mut GameLog, map: &GameMap, player: usize, u: usize)
    requires
        old(w).wf(),
        map.wf(),
        u < old(w).n(),
        player < old(w).n(),
        use_active(*old(w), u as int),
        0 <= use_item_of(*old(w), u as int) < old(w).n(),
        old(w).wants_use@[u as int]->0.target matches Some(pt) ==> map.in_bounds(
            pt.x as int,
            pt.y as int,
        ),
        old(w).area_of_effect@[use_item_of(*old(w), u as int)] is Some ==> old(
            w,
        ).area_of_effect@[use_item_of(*old(w), u as int)]->0.radius >= 0,
        content_valid(*map, *old(w)),
        equips(*old(w), u as int) ==> spec_targets(*old(w), *map, u as int).len()
            > 0,
        use_has_heal(*old(w), u as int) ==> i32::MIN <= old(w).combat_stats@[u as int]->0.hp + old(
            w,
        ).provides_healing@[use_item_of(*old(w), u as int)]->0.heal_amount <= i32::MAX,
    ensures
        final(w).wf(),
        final(w).n() == old(w).n(),
        use_frame(*old(w), *final(w)),
        forall|j: int|
            0 <= j < old(w).n() ==> #[trigger] final(w).equipped@[j] == (if equips(
                *old(w),
                u as int,
            ) {
                if j == use_item_of(*old(w), u as int) {
                    Some(
                        Equipped {
                            owner: wielder_of(*old(w), *map, u as int) as usize,
                            slot: slot_of(*old(w), u as int),
                        },
                    )
                } else if old(w).equipped@[j] is Some && old(w).equipped@[j]->0.owner as int
                    == wielder_of(*old(w), *map, u as int) && old(
                    w,
                ).equipped@[j]->0.slot == slot_of(*old(w), u as int) {
                    Option::<Equipped>::None
                } else {
                    old(w).equipped@[j]
                }
            } else {
                old(w).equipped@[j]
            }),
        forall|j: int|
            0 <= j < old(w).n() ==> #[trigger] final(w).in_backpack@[j] == (if equips(
                *old(w),
                u as int,
            ) {
                if j == use_item_of(*old(w), u as int) {
                    Option::<InBackpack>::None
                } else if old(w).equipped@[j] is Some && old(w).equipped@[j]->0.owner as int
                    == wielder_of(*old(w), *map, u as int) && old(
                    w,
                ).equipped@[j]->0.slot == slot_of(*old(w), u as int) {
                    Some(
                        InBackpack {
                            owner: wielder_of(*old(w), *map, u as int) as usize,
                        },
                    )
                } else {
                    old(w).in_backpack@[j]
                }
            } else {
                old(w).in_backpack@[j]
            }),
        forall|j: int|
            0 <= j < old(w).n() ==> #[trigger] final(w).confusion@[j] == (if use_has_conf(
                *old(w),
                u as int,
            ) && spec_targets(*old(w), *map, u as int).contains(j as usize) {
                Some(
                    Confusion {
                        turns: old(w).confusion@[use_item_of(*old(w), u as int)]->0.turns,
                    },
                )
            } else {
                old(w).confusion@[j]
            }),
        forall|j: int|
            0 <= j < old(w).n() ==> #[trigger] final(w).combat_stats@[j] == (if use_has_heal(
                *old(w),
                u as int,
            ) && j == u {
                Some(
                    healed_stats(
                        old(w).combat_stats@[u as int]->0,
                        old(w).provides_healing@[use_item_of(*old(w), u as int)]->0.heal_amount
                            as int,
                    ),
                )
            } else {
                old(w).combat_stats@[j]
            }),
        forall|d: int|
            0 <= d < old(w).n() ==> final(w).suffer_seq(d) == old(w).suffer_seq(d) + (if
            use_has_damage(*old(w), u as int) {
                repeat_hits(
                    spec_targets(*old(w), *map, u as int),
                    d,
                    old(w).inflicts_damage@[use_item_of(*old(w), u as int)]->0.damage,
                    spec_targets(*old(w), *map, u as int).len() as int,
                )
            } else {
                Seq::<i32>::empty()
            }),
        forall|d: int|
            0 <= d < old(w).n() ==> (#[trigger] final(w).suffer_damage@[d] is Some == (old(
                w,
            ).suffer_damage@[d] is Some || (use_has_damage(*old(w), u as int) && repeat_hits(
                spec_targets(*old(w), *map, u as int),
                d,
                old(w).inflicts_damage@[use_item_of(*old(w), u as int)]->0.damage,
                spec_targets(*old(w), *map, u as int).len() as int,
            ).len() > 0))),
        final(w).to_delete@ == (if use_consumed(*old(w), *map, u as int) {
            old(w).to_delete@.push(use_item_of(*old(w), u as int) as usize)
        } else {
            old(w).to_delete@
        }),
        final(log).entries@.len() >= old(log).entries@.len(),
        forall|j: int|
            0 <= j < old(log).entries@.len() ==> #[trigger] final(log).entries@[j] == old(
                log,
            ).entries@[j],
{
    let ghost w0 = *w;
    let n = w.alive.len();
    let targets = find_targets(&*w, map, u);
    proof {
        assert(targets@ == spec_targets(w0, *map, u as int));
        lemma_targets_valid(w0, *map, u as int);
    }
    let item: usize = match w.wants_use[u] {
        Some(ui) => ui.item,
        None => {
            proof {
                assert(false);
            }
            0
        },
    };

    // Equip: exclusive per slot. Unequip whatever the wielder holds in
    // the item's slot, then wield the item.
    match w.equipable[item] {
        Some(can_equip) => {
            let target_slot = can_equip.slot;
            let wielder: usize = targets[0];
            proof {
                assert(wielder_of(w0, *map, u as int) == wielder as int);
            }
            equip_exclusive_swap(w, log, item, wielder, target_slot, player);
        },
        None => {},
    }
    let ghost wafter_equip = *w;

    // Damage: queue one pending entry per target.
    if w.inflicts_damage[item].is_some() {
        inflict_on_targets(w, log, &targets, item, u, player);
    }
    let ghost wafter_damage = *w;

    // Confusion: read the payload once, then apply it to every target.
    let conf = w.confusion[item];
    match conf {
        Some(confusion) => {
            confuse_targets(w, log, &targets, item, u, player, confusion.turns);
        },
        None => {},
    }

    // Healing: raise the user's own health, capped at max health.
    if w.provides_healing[item].is_some() {
        heal_user(w, log, item, u, player);
    }

    // Consumption: a spent consumable that is not equipment is queued for
    // deletion at the next maintenance step.
    let mut used = true;
    if w.inflicts_damage[item].is_some() || conf.is_some() {
        used = targets.len() > 0;
    }
    if used {
        if w.consumables[item].is_some() && w.equipable[item].is_none() {
            w.mark_for_delete(item);
        }
    }
    proof {
        let tgts = spec_targets(w0, *map, u as int);
        assert forall|d: int|
            0 <= d < w0.n() implies w.suffer_seq(d) == w0.suffer_seq(d) + (if use_has_damage(
            w0,
            u as int,
        ) {
            repeat_hits(
                tgts,
                d,
                w0.inflicts_damage@[use_item_of(w0, u as int)]->0.damage,
                tgts.len() as int,
            )
        } else {
            Seq::<i32>::empty()
        }) by {
            if use_has_damage(w0, u as int) {
                assert(wafter_damage.suffer_seq(d) == wafter_equip.suffer_seq(d) + repeat_hits(
                    targets@,
                    d,
                    wafter_equip.inflicts_damage@[item as int]->0.damage,
                    targets@.len() as int,
                ));
                assert(wafter_equip.suffer_damage@[d] == w0.suffer_damage@[d]);
                assert(w.suffer_damage@[d] == wafter_damage.suffer_damage@[d]);
            } else {
                assert(w.suffer_damage@[d] == w0.suffer_damage@[d]);
                assert(w0.suffer_seq(d) + Seq::<i32>::empty() =~= w0.suffer_seq(d));
            }
        }
    }
}





/// Equip `item` for `wielder` in `target_slot`, first unequipping every
/// item the wielder holds in that slot back into its backpack, and
/// telling the player about its own swaps.
pub fn equip_exclusive_swap(
    w: &mut World,
    log: &mut GameLog,
    item: usize,
    wielder: usize,
    target_slot: crate::components::EquipmentSlot,
    player: usize,
)
    requires
        old(w).wf(),
        item < old(w).n(),
        wielder < old(w).n(),
    ensures
        final(w).wf(),
        final(w).n() == old(w).n(),
        use_frame(*old(w), *final(w)),
        final(w).combat_stats == old(w).combat_stats,
        final(w).suffer_damage == old(w).suffer_damage,
        final(w).confusion == old(w).confusion,
        final(w).to_delete == old(w).to_delete,
        forall|j: int|
            0 <= j < old(w).n() ==> #[trigger] final(w).equipped@[j] == (if j == item {
                Some(Equipped { owner: wielder, slot: target_slot })
            } else if old(w).equipped@[j] is Some && old(w).equipped@[j]->0.owner == wielder && old(
                w,
            ).equipped@[j]->0.slot == target_slot {
                Option::<Equipped>::None
            } else {
                old(w).equipped@[j]
            }),
        forall|j: int|
            0 <= j < old(w).n() ==> #[trigger] final(w).in_backpack@[j] == (if j == item {
                Option::<InBackpack>::None
            } else if old(w).equipped@[j] is Some && old(w).equipped@[j]->0.owner == wielder && old(
                w,
            ).equipped@[j]->0.slot == target_slot {
                Some(InBackpack { owner: wielder })
            } else {
                old(w).in_backpack@[j]
            }),
        final(log).entries@.len() == old(log).entries@.len() + unequip_msgs(
            *old(w),
            wielder as int,
            target_slot,
            player as int,
            old(w).n(),
        ).len() + (if wielder == player && old(w).names@[item as int] is Some {
            1int
        } else {
            0int
        }),
        forall|j2: int|
            0 <= j2 < old(log).entries@.len() ==> #[trigger] final(log).entries@[j2] == old(
                log,
            ).entries@[j2],
        forall|q: int|
            0 <= q < unequip_msgs(
                *old(w),
                wielder as int,
                target_slot,
                player as int,
                old(w).n(),
            ).len() ==> final(log).entries@[old(log).entries@.len() + q]@ == unequip_msgs(
                *old(w),
                wielder as int,
                target_slot,
                player as int,
                old(w).n(),
            )[q],
        (wielder == player && old(w).names@[item as int] is Some) ==> final(log).entries@.last()@
            == "You equip "@ + old(w).names@[item as int]->0.name@ + "."@,
{
    let ghost w0 = *w;
    let n = w.alive.len();
    let ghost wld = wielder as int;
            let mut j: usize = 0;
            while j < n
                invariant
                    w.wf(),
                    w0.wf(),
                    n == w.n(),
                    w.n() == w0.n(),
                    j <= n,
                    wielder < n,
                    wld == wielder as int,
                    w.alive == w0.alive,
                    w.players == w0.players,
                    w.monsters == w0.monsters,
                    w.names == w0.names,
                    w.positions == w0.positions,
                    w.renderables == w0.renderables,
                    w.blocks_tile == w0.blocks_tile,
                    w.combat_stats == w0.combat_stats,
                    w.viewsheds == w0.viewsheds,
                    w.suffer_damage == w0.suffer_damage,
                    w.confusion == w0.confusion,
                    w.items == w0.items,
                    w.consumables == w0.consumables,
                    w.ranged == w0.ranged,
                    w.inflicts_damage == w0.inflicts_damage,
                    w.area_of_effect == w0.area_of_effect,
                    w.provides_healing == w0.provides_healing,
                    w.equipable == w0.equipable,
                    w.melee_bonus == w0.melee_bonus,
                    w.defense_bonus == w0.defense_bonus,
                    w.wants_melee == w0.wants_melee,
                    w.wants_use == w0.wants_use,
                    w.wants_pickup == w0.wants_pickup,
                    w.wants_drop == w0.wants_drop,
                    w.wants_remove == w0.wants_remove,
                    w.to_delete == w0.to_delete,
                    forall|j2: int|
                        0 <= j2 < w0.n() ==> #[trigger] w.equipped@[j2] == (if j2 < j
                            && w0.equipped@[j2] is Some && w0.equipped@[j2]->0.owner as int == wld
                            && w0.equipped@[j2]->0.slot == target_slot {
                            Option::<Equipped>::None
                        } else {
                            w0.equipped@[j2]
                        }),
                    forall|j2: int|
                        0 <= j2 < w0.n() ==> #[trigger] w.in_backpack@[j2] == (if j2 < j
                            && w0.equipped@[j2] is Some && w0.equipped@[j2]->0.owner as int == wld
                            && w0.equipped@[j2]->0.slot == target_slot {
                            Some(InBackpack { owner: wielder })
                        } else {
                            w0.in_backpack@[j2]
                        }),
                    log.entries@.len() == old(log).entries@.len() + unequip_msgs(
                        w0,
                        wld,
                        target_slot,
                        player as int,
                        j as int,
                    ).len(),
                    forall|j2: int|
                        0 <= j2 < old(log).entries@.len() ==> #[trigger] log.entries@[j2] == old(
                            log,
                        ).entries@[j2],
                    forall|q: int|
                        0 <= q < unequip_msgs(
                            w0,
                            wld,
                            target_slot,
                            player as int,
                            j as int,
                        ).len() ==> log.entries@[old(log).entries@.len() + q]@ == unequip_msgs(
                            w0,
                            wld,
                            target_slot,
                            player as int,
                            j as int,
                        )[q],
                decreases n - j,
            {
                let ghost logpre_u = *log;
                let mut unequip_this = false;
                match w.equipped[j] {
                    Some(already_equipped) => {
                        if already_equipped.owner == wielder && crate::components::EquipmentSlot::Melee
                            == target_slot && already_equipped.slot
                            == crate::components::EquipmentSlot::Melee {
                            unequip_this = true;
                        }
                        if already_equipped.owner == wielder && crate::components::EquipmentSlot::Shield
                            == target_slot && already_equipped.slot
                            == crate::components::EquipmentSlot::Shield {
                            unequip_this = true;
                        }
                    },
                    None => {},
                }
                if unequip_this {
                    w.equipped[j] = None;
                    w.in_backpack[j] = Some(InBackpack { owner: wielder });
                    if wielder == player {
                        match &w.names[j] {
                            Some(nm) => {
                                let mut msg = String::from_str("You unequip ");
                                msg.append(nm.name.as_str());
                                msg.append(".");
                                proof {
                                    reveal_strlit("You unequip ");
                                    reveal_strlit(".");
                                    assert(msg@ =~= "You unequip "@ + w0.names@[j as int]->0.name@
                                        + "."@);
                                }
                                log.log(msg);
                            },
                            None => {},
                        }
                    }
                }
                j = j + 1;
                proof {
                    let ghost j1 = j as int;
                    let ghost um = unequip_msgs(w0, wld, target_slot, player as int, j1);
                    let ghost umpre = unequip_msgs(
                        w0,
                        wld,
                        target_slot,
                        player as int,
                        j1 - 1,
                    );
                    assert forall|q: int|
                        0 <= q < um.len() implies log.entries@[old(log).entries@.len() + q]@
                        == um[q] by {
                        if q < umpre.len() {
                            assert(logpre_u.entries@[old(log).entries@.len() + q]@ == umpre[q]);
                        }
                    }
                }
            }
            // Wield the item.
            w.equipped[item] = Some(Equipped { owner: wielder, slot: target_slot });
            w.in_backpack[item] = None;
            if wielder == player {
                match &w.names[item] {
                    Some(nm) => {
                        let mut msg = String::from_str("You equip ");
                        msg.append(nm.name.as_str());
                        msg.append(".");
                        proof {
                            reveal_strlit("You equip ");
                            reveal_strlit(".");
                            assert(msg@ =~= "You equip "@ + w0.names@[item as int]->0.name@
                                + "."@);
                        }
                        log.log(msg);
                    },
                    None => {},
                }
            }

}

/// Resolve one use intent: targeting, exclusive equip, per-target damage
/// and confusion, self-healing, and consumption of spent consumables.
/// The intent itself is left in place; the caller clears the storage once
/// the whole pass is done.
#[verifier::rlimit(100)]



/// Equipped slot of item `j` after the first `k` use intents ran.
pub open spec fn use_equipped_after(w: World, m: GameMap, j: int, k: int) -> Option<
    Equipped,
>
    decreases k,
{
    if k <= 0 {
        w.equipped@[j]
    } else {
        let prev = use_equipped_after(w, m, j, k - 1);
        let u = k - 1;
        if equips(w, u) {
            if j == use_item_of(w, u) {
                Some(
                    Equipped {
                        owner: wielder_of(w, m, u) as usize,
                        slot: slot_of(w, u),
                    },
                )
            } else if prev is Some && prev->0.owner as int == wielder_of(w, m, u)
                && prev->0.slot == slot_of(w, u) {
                Option::<Equipped>::None
            } else {
                prev
            }
        } else {
            prev
        }
    }
}

/// Backpack slot of item `j` after the first `k` use intents ran.
pub open spec fn use_backpack_after(w: World, m: GameMap, j: int, k: int) -> Option<
    InBackpack,
>
    decreases k,
{
    if k <= 0 {
        w.in_backpack@[j]
    } else {
        let prev = use_backpack_after(w, m, j, k - 1);
        let preveq = use_equipped_after(w, m, j, k - 1);
        let u = k - 1;
        if equips(w, u) {
            if j == use_item_of(w, u) {
                Option::<InBackpack>::None
            } else if preveq is Some && preveq->0.owner as int == wielder_of(w, m, u)
                && preveq->0.slot == slot_of(w, u) {
                Some(InBackpack { owner: wielder_of(w, m, u) as usize })
            } else {
                prev
            }
        } else {
            prev
        }
    }
}

/// Confusion state of entity `j` after the first `k` use intents ran:
/// both item payloads and inflicted statuses live in this table, so the
/// payload an item carries is read at the moment its user acts.
pub open spec fn use_confusion_after(w: World, m: GameMap, j: int, k: int) -> Option<
    Confusion,
>
    decreases k, 1int,
{
    if k <= 0 {
        w.confusion@[j]
    } else {
        let prev = use_confusion_after(w, m, j, k - 1);
        let u = k - 1;
        if use_active(w, u) && use_confusion_after(w, m, use_item_of(w, u), k - 1) is Some
            && spec_targets(w, m, u).contains(j as usize) {
            Some(
                Confusion {
                    turns: use_confusion_after(w, m, use_item_of(w, u), k - 1)->0.turns,
                },
            )
        } else {
            prev
        }
    }
}

/// Combat stats of entity `j` after the first `k` use intents ran: only
/// `j`'s own healing ever changes them.
pub open spec fn use_stats_after(w: World, j: int, k: int) -> Option<CombatStats>
    decreases k,
{
    if k <= 0 {
        w.combat_stats@[j]
    } else {
        let prev = use_stats_after(w, j, k - 1);
        let u = k - 1;
        if use_active(w, u) && j == u && w.provides_healing@[use_item_of(w, u)] is Some {
            Some(
                healed_stats(
                    prev->0,
                    w.provides_healing@[use_item_of(w, u)]->0.heal_amount as int,
                ),
            )
        } else {
            prev
        }
    }
}

/// Pending-damage entries entity `d` receives from the first `k` use
/// intents, in user order.
pub open spec fn use_additions(w: World, m: GameMap, d: int, k: int) -> Seq<i32>
    decreases k,
{
    if k <= 0 {
        Seq::<i32>::empty()
    } else {
        let pre = use_additions(w, m, d, k - 1);
        let u = k - 1;
        pre + (if use_active(w, u) && use_has_damage(w, u) {
            repeat_hits(
                spec_targets(w, m, u),
                d,
                w.inflicts_damage@[use_item_of(w, u)]->0.damage,
                spec_targets(w, m, u).len() as int,
            )
        } else {
            Seq::<i32>::empty()
        })
    }
}

/// Whether user `u`'s use counts as spent, judged on the world as it
/// stands after the first `k` use intents ran.
pub open spec fn use_spent_at(w: World, m: GameMap, u: int, k: int) -> bool {
    if use_has_damage(w, u) || use_confusion_after(w, m, use_item_of(w, u), k) is Some {
        spec_targets(w, m, u).len() > 0
    } else {
        true
    }
}

/// Items queued for deletion by the first `k` use intents, in user order.
pub open spec fn use_deletes(w: World, m: GameMap, k: int) -> Seq<usize>
    decreases k,
{
    if k <= 0 {
        Seq::<usize>::empty()
    } else {
        let pre = use_deletes(w, m, k - 1);
        let u = k - 1;
        if use_active(w, u) && use_spent_at(w, m, u, k - 1) && w.consumables@[use_item_of(
            w,
            u,
        )] is Some && w.equipable@[use_item_of(w, u)] is None {
            pre.push(use_item_of(w, u) as usize)
        } else {
            pre
        }
    }
}

/// Healing never detaches or attaches a stats block.
pub proof fn lemma_use_stats_some(w: World, j: int, k: int)
    ensures
        use_stats_after(w, j, k) is Some <==> w.combat_stats@[j] is Some,
    decreases k,
{
    if k > 0 {
        lemma_use_stats_some(w, j, k - 1);
    }
}

proof fn lemma_use_stats_before(w: World, j: int, k: int)
    requires
        k <= j,
    ensures
        use_stats_after(w, j, k) == w.combat_stats@[j],
    decreases k,
{
    if k > 0 {
        lemma_use_stats_before(w, j, k - 1);
    }
}

/// Every queued deletion comes from some user's item.
pub proof fn lemma_use_deletes_valid(w: World, m: GameMap, k: int)
    ensures
        forall|j: int|
            0 <= j < use_deletes(w, m, k).len() ==> exists|u: int|
                0 <= u < k && #[trigger] use_active(w, u) && #[trigger] use_deletes(
                    w,
                    m,
                    k,
                )[j] == use_item_of(w, u) as usize,
    decreases k,
{
    if k > 0 {
        lemma_use_deletes_valid(w, m, k - 1);
        let pre = use_deletes(w, m, k - 1);
        let cur = use_deletes(w, m, k);
        assert forall|j: int|
            0 <= j < cur.len() implies exists|u: int|
            0 <= u < k && #[trigger] use_active(w, u) && #[trigger] cur[j] == use_item_of(w, u)
                as usize by {
            if j < pre.len() {
                assert(cur[j] == pre[j]);
                let u = choose|u: int|
                    0 <= u < k - 1 && #[trigger] use_active(w, u) && pre[j] == use_item_of(w, u)
                        as usize;
                assert(0 <= u < k && use_active(w, u) && cur[j] == use_item_of(w, u) as usize);
            } else {
                assert(cur[j] == use_item_of(w, k - 1) as usize);
                assert(use_active(w, k - 1));
            }
        }
    }
}

/// An entity no drop intent names keeps its position through the pass.
pub proof fn lemma_drop_pos_untouched(w: World, i: int, k: int)
    requires
        forall|e: int|
            0 <= e < k && #[trigger] w.wants_drop@[e] is Some ==> w.wants_drop@[e]->0.item as int
                != i,
    ensures
        drop_pos_after(w, i, k) == w.positions@[i],
    decreases k,
{
    if k > 0 {
        lemma_drop_pos_untouched(w, i, k - 1);
    }
}

/// Every position a drop pass can produce already stood in the table.
pub proof fn lemma_drop_pos_provenance(w: World, i: int, k: int)
    requires
        0 <= i < w.n(),
        k <= w.n(),
    ensures
        exists|j: int| 0 <= j < w.n() && drop_pos_after(w, i, k) == #[trigger] w.positions@[j],
    decreases k,
{
    if k <= 0 {
        assert(drop_pos_after(w, i, k) == w.positions@[i]);
    } else {
        if w.wants_drop@[k - 1] is Some && w.wants_drop@[k - 1]->0.item == i {
            lemma_drop_pos_provenance(w, k - 1, k - 1);
        } else {
            lemma_drop_pos_provenance(w, i, k - 1);
        }
    }
}

/// Every use intent can be resolved: its item exists and is aimed within
/// the map, an equip always finds a wielder, and healing stays
/// representable.
pub open spec fn use_intents_wf(w: World, m: GameMap) -> bool {
    forall|u: int|
        0 <= u < w.n() && #[trigger] use_active(w, u) ==> {
            &&& 0 <= use_item_of(w, u) < w.n()
            &&& (w.wants_use@[u]->0.target matches Some(pt) ==> m.in_bounds(
                pt.x as int,
                pt.y as int,
            ))
            &&& (w.area_of_effect@[use_item_of(w, u)] is Some ==> w.area_of_effect@[use_item_of(
                w,
                u,
            )]->0.radius >= 0)
            &&& (equips(w, u) ==> spec_targets(w, m, u).len() > 0)
            &&& (use_has_heal(w, u) ==> i32::MIN <= w.combat_stats@[u]->0.hp
                + w.provides_healing@[use_item_of(w, u)]->0.heal_amount <= i32::MAX)
        }
}

/// No two distinct items are equipped by one owner in one slot, after
/// the first `k` use intents ran.
pub open spec fn exclusive_at(w: World, m: GameMap, k: int) -> bool {
    forall|j1: int, j2: int|
        0 <= j1 < w.n() && 0 <= j2 < w.n() && j1 != j2 && #[trigger] use_equipped_after(
            w,
            m,
            j1,
            k,
        ) is Some && #[trigger] use_equipped_after(w, m, j2, k) is Some ==> !(
        use_equipped_after(w, m, j1, k)->0.owner == use_equipped_after(
            w,
            m,
            j2,
            k,
        )->0.owner && use_equipped_after(w, m, j1, k)->0.slot == use_equipped_after(
            w,
            m,
            j2,
            k,
        )->0.slot)
}

/// Law: equip exclusivity. When no owner holds two items in one slot,
/// processing any number of use intents — each of which unequips
/// everything in the used item's slot before wielding it — keeps it that
/// way: at most one item ever occupies a given owner-and-slot pair.
pub proof fn lemma_equip_exclusive(w: World, m: GameMap, k: int)
    requires
        exclusive_at(w, m, 0),
        0 <= k,
    ensures
        exclusive_at(w, m, k),
    decreases k,
{
    if k > 0 {
        lemma_equip_exclusive(w, m, k - 1);
        let u = k - 1;
        assert forall|j1: int, j2: int|
            0 <= j1 < w.n() && 0 <= j2 < w.n() && j1 != j2 && #[trigger] use_equipped_after(
                w,
                m,
                j1,
                k,
            ) is Some && #[trigger] use_equipped_after(w, m, j2, k) is Some implies !(
        use_equipped_after(w, m, j1, k)->0.owner == use_equipped_after(
            w,
            m,
            j2,
            k,
        )->0.owner && use_equipped_after(w, m, j1, k)->0.slot == use_equipped_after(
            w,
            m,
            j2,
            k,
        )->0.slot) by {
            let v1 = use_equipped_after(w, m, j1, k);
            let v2 = use_equipped_after(w, m, j2, k);
            let p1 = use_equipped_after(w, m, j1, k - 1);
            let p2 = use_equipped_after(w, m, j2, k - 1);
            if v1 is Some && v2 is Some && v1->0.owner == v2->0.owner && v1->0.slot
                == v2->0.slot {
                if equips(w, u) {
                    let it = use_item_of(w, u);
                    let wld = wielder_of(w, m, u);
                    let sl = slot_of(w, u);
                    if j1 == it {
                        assert(v1->0.owner as int == wld && v1->0.slot == sl);
                        assert(v2 == p2);
                        assert(!(p2 is Some && p2->0.owner as int == wld && p2->0.slot == sl));
                        assert(false);
                    } else if j2 == it {
                        assert(v2->0.owner as int == wld && v2->0.slot == sl);
                        assert(v1 == p1);
                        assert(false);
                    } else {
                        assert(v1 == p1 && v2 == p2);
                        assert(false);
                    }
                } else {
                    assert(v1 == p1 && v2 == p2);
                    assert(false);
                }
            }
        }
    }
}

/// The item-use resolver.
pub struct ItemUseSystem {}

impl ItemUseSystem {
    /// Process every use intent in entity order, then clear the use-intent
    /// storage: at most one application per entity per tick.
    pub fn run(w: &mut World, log: &mut GameLog, map: &GameMap, player: usize)
        requires
            old(w).wf(),
            map.wf(),
            player < old(w).n(),
            content_valid(*map, *old(w)),
            use_intents_wf(*old(w), *map),
        ensures
            final(w).wf(),
            final(w).n() == old(w).n(),
            forall|e: int| 0 <= e < final(w).n() ==> final(w).wants_use@[e] is None,
            final(w).alive == old(w).alive,
            final(w).players == old(w).players,
            final(w).monsters == old(w).monsters,
            final(w).names == old(w).names,
            final(w).positions == old(w).positions,
            final(w).renderables == old(w).renderables,
            final(w).blocks_tile == old(w).blocks_tile,
            final(w).viewsheds == old(w).viewsheds,
            final(w).items == old(w).items,
            final(w).consumables == old(w).consumables,
            final(w).ranged == old(w).ranged,
            final(w).inflicts_damage == old(w).inflicts_damage,
            final(w).area_of_effect == old(w).area_of_effect,
            final(w).provides_healing == old(w).provides_healing,
            final(w).equipable == old(w).equipable,
            final(w).melee_bonus == old(w).melee_bonus,
            final(w).defense_bonus == old(w).defense_bonus,
            final(w).wants_melee == old(w).wants_melee,
            final(w).wants_pickup == old(w).wants_pickup,
            final(w).wants_drop == old(w).wants_drop,
            final(w).wants_remove == old(w).wants_remove,
            forall|j: int|
                0 <= j < old(w).n() ==> #[trigger] final(w).equipped@[j] == use_equipped_after(
                    *old(w),
                    *map,
                    j,
                    old(w).n(),
                ),
            forall|j: int|
                0 <= j < old(w).n() ==> #[trigger] final(w).in_backpack@[j] == use_backpack_after(
                    *old(w),
                    *map,
                    j,
                    old(w).n(),
                ),
            forall|j: int|
                0 <= j < old(w).n() ==> #[trigger] final(w).confusion@[j] == use_confusion_after(
                    *old(w),
                    *map,
                    j,
                    old(w).n(),
                ),
            forall|j: int|
                0 <= j < old(w).n() ==> #[trigger] final(w).combat_stats@[j] == use_stats_after(
                    *old(w),
                    j,
                    old(w).n(),
                ),
            forall|d: int|
                0 <= d < old(w).n() ==> final(w).suffer_seq(d) == old(w).suffer_seq(d)
                    + use_additions(*old(w), *map, d, old(w).n()),
            forall|d: int|
                0 <= d < old(w).n() ==> (#[trigger] final(w).suffer_damage@[d] is Some == (old(
                    w,
                ).suffer_damage@[d] is Some || use_additions(
                    *old(w),
                    *map,
                    d,
                    old(w).n(),
                ).len() > 0)),
            final(w).to_delete@ == old(w).to_delete@ + use_deletes(
                *old(w),
                *map,
                old(w).n(),
            ),
            final(log).entries@.len() >= old(log).entries@.len(),
            forall|j: int|
                0 <= j < old(log).entries@.len() ==> #[trigger] final(log).entries@[j] == old(
                    log,
                ).entries@[j],
    {
        let ghost w0 = *w;
        let ghost log0 = *log;
        let n = w.alive.len();
        let mut u: usize = 0;
        while u < n
            invariant
                w.wf(),
                w0.wf(),
                map.wf(),
                n == w.n(),
                w.n() == w0.n(),
                u <= n,
                player < n,
                content_valid(*map, w0),
                use_intents_wf(w0, *map),
                w.alive == w0.alive,
                w.players == w0.players,
                w.monsters == w0.monsters,
                w.names == w0.names,
                w.positions == w0.positions,
                w.renderables == w0.renderables,
                w.blocks_tile == w0.blocks_tile,
                w.viewsheds == w0.viewsheds,
                w.items == w0.items,
                w.consumables == w0.consumables,
                w.ranged == w0.ranged,
                w.inflicts_damage == w0.inflicts_damage,
                w.area_of_effect == w0.area_of_effect,
                w.provides_healing == w0.provides_healing,
                w.equipable == w0.equipable,
                w.melee_bonus == w0.melee_bonus,
                w.defense_bonus == w0.defense_bonus,
                w.wants_melee == w0.wants_melee,
                w.wants_use == w0.wants_use,
                w.wants_pickup == w0.wants_pickup,
                w.wants_drop == w0.wants_drop,
                w.wants_remove == w0.wants_remove,
                forall|j: int|
                    0 <= j < w0.n() ==> #[trigger] w.equipped@[j] == use_equipped_after(
                        w0,
                        *map,
                        j,
                        u as int,
                    ),
                forall|j: int|
                    0 <= j < w0.n() ==> #[trigger] w.in_backpack@[j] == use_backpack_after(
                        w0,
                        *map,
                        j,
                        u as int,
                    ),
                forall|j: int|
                    0 <= j < w0.n() ==> #[trigger] w.confusion@[j] == use_confusion_after(
                        w0,
                        *map,
                        j,
                        u as int,
                    ),
                forall|j: int|
                    0 <= j < w0.n() ==> #[trigger] w.combat_stats@[j] == use_stats_after(
                        w0,
                        j,
                        u as int,
                    ),
                forall|d: int|
                    0 <= d < w0.n() ==> w.suffer_seq(d) == w0.suffer_seq(d) + use_additions(
                        w0,
                        *map,
                        d,
                        u as int,
                    ),
                forall|d: int|
                    0 <= d < w0.n() ==> (#[trigger] w.suffer_damage@[d] is Some == (
                    w0.suffer_damage@[d] is Some || use_additions(
                        w0,
                        *map,
                        d,
                        u as int,
                    ).len() > 0)),
                w.to_delete@ == w0.to_delete@ + use_deletes(w0, *map, u as int),
                log.entries@.len() >= log0.entries@.len(),
                forall|j: int|
                    0 <= j < log0.entries@.len() ==> #[trigger] log.entries@[j]
                        == log0.entries@[j],
            decreases n - u,
        {
            let ghost wpre = *w;
            let ghost logpre = *log;
            let mut active = false;
            if w.wants_use[u].is_some() {
                if w.combat_stats[u].is_some() {
                    active = true;
                }
            }
            proof {
                lemma_use_stats_some(w0, u as int, u as int);
                assert(active == use_active(w0, u as int));
            }
            if active {
                proof {
                    lemma_use_stats_before(w0, u as int, u as int);
                    assert(spec_targets(wpre, *map, u as int) == spec_targets(
                        w0,
                        *map,
                        u as int,
                    ));
                    assert(use_confusion_after(w0, *map, use_item_of(w0, u as int), u as int)
                        == wpre.confusion@[use_item_of(w0, u as int)]);
                }
                use_one(w, log, map, player, u);
            }
            u = u + 1;
            proof {
                let ghost u1 = u as int;
                assert forall|j: int|
                    0 <= j < w0.n() implies #[trigger] w.equipped@[j] == use_equipped_after(
                    w0,
                    *map,
                    j,
                    u1,
                ) by {
                    assert(wpre.equipped@[j] == use_equipped_after(w0, *map, j, u1 - 1));
                }
                assert forall|j: int|
                    0 <= j < w0.n() implies #[trigger] w.in_backpack@[j] == use_backpack_after(
                    w0,
                    *map,
                    j,
                    u1,
                ) by {
                    assert(wpre.in_backpack@[j] == use_backpack_after(w0, *map, j, u1 - 1));
                    assert(wpre.equipped@[j] == use_equipped_after(w0, *map, j, u1 - 1));
                }
                assert forall|j: int|
                    0 <= j < w0.n() implies #[trigger] w.confusion@[j] == use_confusion_after(
                    w0,
                    *map,
                    j,
                    u1,
                ) by {
                    assert(wpre.confusion@[j] == use_confusion_after(w0, *map, j, u1 - 1));
                    if use_active(w0, u1 - 1) {
                        assert(wpre.confusion@[use_item_of(w0, u1 - 1)] == use_confusion_after(
                            w0,
                            *map,
                            use_item_of(w0, u1 - 1),
                            u1 - 1,
                        ));
                    }
                }
                assert forall|j: int|
                    0 <= j < w0.n() implies #[trigger] w.combat_stats@[j] == use_stats_after(
                    w0,
                    j,
                    u1,
                ) by {
                    assert(wpre.combat_stats@[j] == use_stats_after(w0, j, u1 - 1));
                    if use_active(w0, u1 - 1) && j == u1 - 1 && w0.provides_healing@[use_item_of(
                        w0,
                        u1 - 1,
                    )] is Some {
                        lemma_use_stats_before(w0, j, u1 - 1);
                    }
                }
                assert forall|d: int|
                    0 <= d < w0.n() implies w.suffer_seq(d) == w0.suffer_seq(d) + use_additions(
                    w0,
                    *map,
                    d,
                    u1,
                ) by {
                    assert(wpre.suffer_seq(d) == w0.suffer_seq(d) + use_additions(
                        w0,
                        *map,
                        d,
                        u1 - 1,
                    ));
                }
                assert forall|d: int|
                    0 <= d < w0.n() implies (#[trigger] w.suffer_damage@[d] is Some == (
                w0.suffer_damage@[d] is Some || use_additions(w0, *map, d, u1).len() > 0)) by {
                    assert(wpre.suffer_damage@[d] is Some == (w0.suffer_damage@[d] is Some
                        || use_additions(w0, *map, d, u1 - 1).len() > 0));
                }
                assert(w.to_delete@ == w0.to_delete@ + use_deletes(w0, *map, u1)) by {
                    assert(wpre.to_delete@ == w0.to_delete@ + use_deletes(w0, *map, u1 - 1));
                    if use_active(w0, u1 - 1) {
                        assert(wpre.confusion@[use_item_of(w0, u1 - 1)] == use_confusion_after(
                            w0,
                            *map,
                            use_item_of(w0, u1 - 1),
                            u1 - 1,
                        ));
                    }
                }
            }
        }
        // Clear every use intent.
        let ghost wmid = *w;
        let ghost logmid = *log;
        let mut c: usize = 0;
        while c < n
            invariant
                w.wf(),
                n == w.n(),
                c <= n,
                w.alive == wmid.alive,
                w.players == wmid.players,
                w.monsters == wmid.monsters,
                w.names == wmid.names,
                w.positions == wmid.positions,
                w.renderables == wmid.renderables,
                w.blocks_tile == wmid.blocks_tile,
                w.combat_stats == wmid.combat_stats,
                w.viewsheds == wmid.viewsheds,
                w.suffer_damage == wmid.suffer_damage,
                w.confusion == wmid.confusion,
                w.items == wmid.items,
                w.consumables == wmid.consumables,
                w.ranged == wmid.ranged,
                w.inflicts_damage == wmid.inflicts_damage,
                w.area_of_effect == wmid.area_of_effect,
                w.provides_healing == wmid.provides_healing,
                w.equipable == wmid.equipable,
                w.equipped == wmid.equipped,
                w.melee_bonus == wmid.melee_bonus,
                w.defense_bonus == wmid.defense_bonus,
                w.in_backpack == wmid.in_backpack,
                w.wants_melee == wmid.wants_melee,
                w.wants_pickup == wmid.wants_pickup,
                w.wants_drop == wmid.wants_drop,
                w.wants_remove == wmid.wants_remove,
                w.to_delete == wmid.to_delete,
                log.entries == logmid.entries,
                w.wants_use@.len() == n,
                forall|e2: int| 0 <= e2 < c ==> w.wants_use@[e2] is None,
            decreases n - c,
        {
            w.wants_use[c] = None;
            c = c + 1;
        }
        proof {
            assert forall|j: int|
                0 <= j < w0.n() implies #[trigger] final(w).equipped@[j] == use_equipped_after(
                w0,
                *map,
                j,
                w0.n(),
            ) by {
                assert(wmid.equipped@[j] == use_equipped_after(w0, *map, j, w0.n()));
            }
            assert forall|j: int|
                0 <= j < w0.n() implies #[trigger] final(w).in_backpack@[j] == use_backpack_after(
                w0,
                *map,
                j,
                w0.n(),
            ) by {
                assert(wmid.in_backpack@[j] == use_backpack_after(w0, *map, j, w0.n()));
            }
            assert forall|j: int|
                0 <= j < w0.n() implies #[trigger] final(w).confusion@[j] == use_confusion_after(
                w0,
                *map,
                j,
                w0.n(),
            ) by {
                assert(wmid.confusion@[j] == use_confusion_after(w0, *map, j, w0.n()));
            }
            assert forall|j: int|
                0 <= j < w0.n() implies #[trigger] final(w).combat_stats@[j] == use_stats_after(
                w0,
                j,
                w0.n(),
            ) by {
                assert(wmid.combat_stats@[j] == use_stats_after(w0, j, w0.n()));
            }
            assert forall|d: int|
                0 <= d < w0.n() implies final(w).suffer_seq(d) == w0.suffer_seq(d)
                + use_additions(w0, *map, d, w0.n()) by {
                assert(wmid.suffer_seq(d) == w0.suffer_seq(d) + use_additions(
                    w0,
                    *map,
                    d,
                    w0.n(),
                ));
                assert(w.suffer_damage@[d] == wmid.suffer_damage@[d]);
            }
            assert forall|d: int|
                0 <= d < w0.n() implies (#[trigger] final(w).suffer_damage@[d] is Some == (
            w0.suffer_damage@[d] is Some || use_additions(w0, *map, d, w0.n()).len() > 0)) by {
                assert(w.suffer_damage@[d] == wmid.suffer_damage@[d]);
                assert(wmid.suffer_damage@[d] is Some == (w0.suffer_damage@[d] is Some
                    || use_additions(w0, *map, d, w0.n()).len() > 0));
            }
        }
    }
}

} // verus!
