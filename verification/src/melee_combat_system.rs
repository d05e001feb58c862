//! The combat resolver: turns melee intents into pending damage, factoring
//! equipped-item bonuses, and logs one message per resolved attack. All
//! melee intents are cleared after the pass, whatever their outcome.

use vstd::prelude::*;

use crate::components::SufferDamage;
use crate::gamelog::GameLog;
use crate::strfmt::dec_rep;
use crate::world::World;

verus! {

/// Ceiling on entity slots, so that bonus sums fit machine integers.
pub const MAX_ENTITIES: usize = 0x10000000;

/// Sum of melee power bonuses over items `0..k` equipped by `owner`.
pub open spec fn power_bonus_sum(w: World, owner: int, k: int) -> int
    decreases k,
{
    if k <= 0 {
        0
    } else {
        power_bonus_sum(w, owner, k - 1) + (if w.melee_bonus@[k - 1] is Some && w.equipped@[k
            - 1] is Some && w.equipped@[k - 1]->0.owner == owner {
            w.melee_bonus@[k - 1]->0.power as int
        } else {
            0
        })
    }
}

/// Sum of defense bonuses over items `0..k` equipped by `owner`.
pub open spec fn defense_bonus_sum(w: World, owner: int, k: int) -> int
    decreases k,
{
    if k <= 0 {
        0
    } else {
        defense_bonus_sum(w, owner, k - 1) + (if w.defense_bonus@[k - 1] is Some && w.equipped@[k
            - 1] is Some && w.equipped@[k - 1]->0.owner == owner {
            w.defense_bonus@[k - 1]->0.defense as int
        } else {
            0
        })
    }
}

/// Attacker `a` holds a melee intent and may act: it is named, has combat
/// stats, and its current health is positive.
pub open spec fn melee_active(w: World, a: int) -> bool {
    &&& w.wants_melee@[a] is Some
    &&& w.names@[a] is Some
    &&& w.combat_stats@[a] is Some
    &&& w.combat_stats@[a]->0.hp > 0
}

/// The defender `a` aims at.
pub open spec fn melee_target(w: World, a: int) -> int {
    w.wants_melee@[a]->0.target as int
}

/// An active attack resolves only against a defender whose health is
/// still positive.
pub open spec fn melee_resolves(w: World, a: int) -> bool {
    melee_active(w, a) && w.combat_stats@[melee_target(w, a)]->0.hp > 0
}

/// Damage dealt by attacker `a`: attack power plus equipped power bonuses,
/// less the defender's defense plus its equipped defense bonuses, floored
/// at zero.
pub open spec fn melee_damage(w: World, a: int) -> int {
    let t = melee_target(w, a);
    let raw = (w.combat_stats@[a]->0.power + power_bonus_sum(w, a, w.n())) - (
    w.combat_stats@[t]->0.defense + defense_bonus_sum(w, t, w.n()));
    if raw > 0 {
        raw
    } else {
        0
    }
}

/// Every active melee intent names an existing defender that has combat
/// stats and a name.
pub open spec fn melee_intents_wf(w: World) -> bool {
    forall|a: int|
        0 <= a < w.n() && #[trigger] melee_active(w, a) ==> {
            &&& 0 <= melee_target(w, a) < w.n()
            &&& w.combat_stats@[melee_target(w, a)] is Some
            &&& w.names@[melee_target(w, a)] is Some
        }
}

/// Pending-damage entries appended to defender `d` by attackers `0..k`,
/// in attacker order.
pub open spec fn melee_additions(w: World, d: int, k: int) -> Seq<i32>
    decreases k,
{
    if k <= 0 {
        Seq::<i32>::empty()
    } else {
        let pre = melee_additions(w, d, k - 1);
        let a = k - 1;
        if melee_resolves(w, a) && melee_target(w, a) == d && melee_damage(w, a) > 0 {
            pre.push(melee_damage(w, a) as i32)
        } else {
            pre
        }
    }
}

/// The message logged for attacker `a`'s resolved attack.
pub open spec fn melee_message(w: World, a: int) -> Seq<char> {
    let an = w.names@[a]->0.name@;
    let tn = w.names@[melee_target(w, a)]->0.name@;
    if melee_damage(w, a) == 0 {
        an + " is unable to hurt "@ + tn
    } else {
        an + " hits "@ + tn + ", for "@ + dec_rep(melee_damage(w, a)) + " hp"@
    }
}

/// Messages logged by attackers `0..k`, in attacker order.
pub open spec fn melee_messages(w: World, k: int) -> Seq<Seq<char>>
    decreases k,
{
    if k <= 0 {
        Seq::<Seq<char>>::empty()
    } else {
        let pre = melee_messages(w, k - 1);
        if melee_resolves(w, k - 1) {
            pre.push(melee_message(w, k - 1))
        } else {
            pre
        }
    }
}

/// Every attack's damage fits the pending-damage entry type.
pub open spec fn melee_damage_fits(w: World) -> bool {
    forall|a: int|
        0 <= a < w.n() && #[trigger] melee_active(w, a) ==> melee_damage(w, a) <= i32::MAX
}

/// The melee combat resolver.
pub struct MeleeCombatSystem {}

impl MeleeCombatSystem {
    /// Resolve every melee intent of an attacker with positive health
    /// against a defender with positive health: append the computed damage
    /// to the defender's pending list when positive, log a hit or
    /// no-effect message either way, and clear every melee intent.
    pub fn run(w: &mut World, log: &mut GameLog)
        requires
            old(w).wf(),
            old(w).n() <= MAX_ENTITIES,
            melee_intents_wf(*old(w)),
            melee_damage_fits(*old(w)),
        ensures
            final(w).wf(),
            final(w).n() == old(w).n(),
            forall|e: int| 0 <= e < final(w).n() ==> final(w).wants_melee@[e] is None,
            final(w).alive == old(w).alive,
            final(w).players == old(w).players,
            final(w).monsters == old(w).monsters,
            final(w).names == old(w).names,
            final(w).positions == old(w).positions,
            final(w).renderables == old(w).renderables,
            final(w).blocks_tile == old(w).blocks_tile,
            final(w).combat_stats == old(w).combat_stats,
            final(w).viewsheds == old(w).viewsheds,
            final(w).confusion == old(w).confusion,
            final(w).items == old(w).items,
            final(w).consumables == old(w).consumables,
            final(w).ranged == old(w).ranged,
            final(w).inflicts_damage == old(w).inflicts_damage,
            final(w).area_of_effect == old(w).area_of_effect,
            final(w).provides_healing == old(w).provides_healing,
            final(w).equipable == old(w).equipable,
            final(w).equipped == old(w).equipped,
            final(w).melee_bonus == old(w).melee_bonus,
            final(w).defense_bonus == old(w).defense_bonus,
            final(w).in_backpack == old(w).in_backpack,
            final(w).wants_use == old(w).wants_use,
            final(w).wants_pickup == old(w).wants_pickup,
            final(w).wants_drop == old(w).wants_drop,
            final(w).wants_remove == old(w).wants_remove,
            final(w).to_delete == old(w).to_delete,
            forall|d: int|
                0 <= d < old(w).n() ==> final(w).suffer_seq(d) == old(w).suffer_seq(d)
                    + melee_additions(*old(w), d, old(w).n()),
            forall|d: int|
                0 <= d < old(w).n() ==> (#[trigger] final(w).suffer_damage@[d] is Some == (old(
                    w,
                ).suffer_damage@[d] is Some || melee_additions(*old(w), d, old(w).n()).len() > 0)),
            final(log).entries@.len() == old(log).entries@.len() + melee_messages(
                *old(w),
                old(w).n(),
            ).len(),
            forall|j: int|
                0 <= j < old(log).entries@.len() ==> final(log).entries@[j] == old(
                    log,
                ).entries@[j],
            forall|j: int|
                0 <= j < melee_messages(*old(w), old(w).n()).len() ==> final(log).entries@[old(
                    log,
                ).entries@.len() + j]@ == melee_messages(*old(w), old(w).n())[j],
    {
        let ghost w0 = *w;
        let ghost log0 = *log;
        let n = w.alive.len();
        let mut a: usize = 0;
        while a < n
            invariant
                w.wf(),
                w0.wf(),
                n == w.n(),
                w.n() == w0.n(),
                n <= MAX_ENTITIES,
                a <= n,
                melee_intents_wf(w0),
                melee_damage_fits(w0),
                w.alive == w0.alive,
                w.players == w0.players,
                w.monsters == w0.monsters,
                w.names == w0.names,
                w.positions == w0.positions,
                w.renderables == w0.renderables,
                w.blocks_tile == w0.blocks_tile,
                w.combat_stats == w0.combat_stats,
                w.viewsheds == w0.viewsheds,
                w.confusion == w0.confusion,
                w.items == w0.items,
                w.consumables == w0.consumables,
                w.ranged == w0.ranged,
                w.inflicts_damage == w0.inflicts_damage,
                w.area_of_effect == w0.area_of_effect,
                w.provides_healing == w0.provides_healing,
                w.equipable == w0.equipable,
                w.equipped == w0.equipped,
                w.melee_bonus == w0.melee_bonus,
                w.defense_bonus == w0.defense_bonus,
                w.in_backpack == w0.in_backpack,
                w.wants_melee == w0.wants_melee,
                w.wants_use == w0.wants_use,
                w.wants_pickup == w0.wants_pickup,
                w.wants_drop == w0.wants_drop,
                w.wants_remove == w0.wants_remove,
                w.to_delete == w0.to_delete,
                w.suffer_damage@.len() == w0.n(),
                forall|d: int|
                    0 <= d < w0.n() ==> w.suffer_seq(d) == w0.suffer_seq(d) + melee_additions(
                        w0,
                        d,
                        a as int,
                    ),
                forall|d: int|
                    0 <= d < w0.n() ==> (#[trigger] w.suffer_damage@[d] is Some == (
                    w0.suffer_damage@[d] is Some || melee_additions(w0, d, a as int).len() > 0)),
                log.entries@.len() == log0.entries@.len() + melee_messages(w0, a as int).len(),
                forall|j: int|
                    0 <= j < log0.entries@.len() ==> log.entries@[j] == log0.entries@[j],
                forall|j: int|
                    0 <= j < melee_messages(w0, a as int).len() ==> log.entries@[log0.entries@.len()
                        + j]@ == melee_messages(w0, a as int)[j],
            decreases n - a,
        {
            let ghost wpre = *w;
            let ghost logpre = *log;
            let mut resolves = false;
            let mut target: usize = 0;
            let mut attacker_power: i32 = 0;
            match w.wants_melee[a] {
                Some(wm) => {
                    if w.names[a].is_some() {
                        match w.combat_stats[a] {
                            Some(stats) => {
                                if stats.hp > 0 {
                                    proof {
                                        assert(melee_active(w0, a as int));
                                    }
                                    target = wm.target;
                                    match w.combat_stats[target] {
                                        Some(tstats) => {
                                            if tstats.hp > 0 {
                                                resolves = true;
                                                attacker_power = stats.power;
                                            }
                                        },
                                        None => {
                                            proof {
                                                assert(false);
                                            }
                                        },
                                    }
                                }
                            },
                            None => {},
                        }
                    }
                },
                None => {},
            }
            if resolves {
                proof {
                    assert(melee_resolves(w0, a as int));
                }
                // Sum the attacker's equipped power bonuses and the
                // defender's equipped defense bonuses.
                let mut off_bonus: i64 = 0;
                let mut k: usize = 0;
                while k < n
                    invariant
                        w.wf(),
                        n == w.n(),
                        n <= MAX_ENTITIES,
                        k <= n,
                        w.melee_bonus == w0.melee_bonus,
                        w.equipped == w0.equipped,
                        off_bonus == power_bonus_sum(w0, a as int, k as int),
                        -(k as int) * 0x80000000 <= off_bonus <= (k as int) * 0x80000000,
                    decreases n - k,
                {
                    match w.melee_bonus[k] {
                        Some(b) => {
                            match w.equipped[k] {
                                Some(eq) => {
                                    if eq.owner == a {
                                        off_bonus = off_bonus + (b.power as i64);
                                    }
                                },
                                None => {},
                            }
                        },
                        None => {},
                    }
                    k = k + 1;
                }
                let mut def_bonus: i64 = 0;
                let mut k2: usize = 0;
                while k2 < n
                    invariant
                        w.wf(),
                        n == w.n(),
                        n <= MAX_ENTITIES,
                        k2 <= n,
                        w.defense_bonus == w0.defense_bonus,
                        w.equipped == w0.equipped,
                        target < n,
                        def_bonus == defense_bonus_sum(w0, target as int, k2 as int),
                        -(k2 as int) * 0x80000000 <= def_bonus <= (k2 as int) * 0x80000000,
                    decreases n - k2,
                {
                    match w.defense_bonus[k2] {
                        Some(b) => {
                            match w.equipped[k2] {
                                Some(eq) => {
                                    if eq.owner == target {
                                        def_bonus = def_bonus + (b.defense as i64);
                                    }
                                },
                                None => {},
                            }
                        },
                        None => {},
                    }
                    k2 = k2 + 1;
                }
                let defender_defense: i32 = match w.combat_stats[target] {
                    Some(ts) => ts.defense,
                    None => {
                        proof {
                            assert(false);
                        }
                        0
                    },
                };
                proof {
                    assert(-(n as int) * 0x80000000 >= -0x10000000 * 0x80000000);
                    assert((n as int) * 0x80000000 <= 0x10000000 * 0x80000000);
                }
                let raw: i64 = ((attacker_power as i64) + off_bonus) - ((defender_defense as i64)
                    + def_bonus);
                let damage: i64 = if raw > 0 {
                    raw
                } else {
                    0
                };
                proof {
                    assert(damage == melee_damage(w0, a as int));
                    assert(melee_damage(w0, a as int) <= i32::MAX);
                }
                // Log the outcome and queue the damage.
                let attacker_name: String = match &w.names[a] {
                    Some(nm) => nm.name.clone(),
                    None => {
                        proof {
                            assert(false);
                        }
                        String::new()
                    },
                };
                let target_name: String = match &w.names[target] {
                    Some(nm) => nm.name.clone(),
                    None => {
                        proof {
                            assert(false);
                        }
                        String::new()
                    },
                };
                if damage == 0 {
                    let mut msg = attacker_name;
                    msg.append(" is unable to hurt ");
                    msg.append(target_name.as_str());
                    proof {
                        reveal_strlit(" is unable to hurt ");
                        assert(msg@ =~= melee_message(w0, a as int));
                    }
                    log.log(msg);
                } else {
                    let dmg32: i32 = damage as i32;
                    let dmg_str = crate::strfmt::u64_to_string(dmg32 as u64);
                    let mut msg = attacker_name;
                    msg.append(" hits ");
                    msg.append(target_name.as_str());
                    msg.append(", for ");
                    msg.append(dmg_str.as_str());
                    msg.append(" hp");
                    proof {
                        reveal_strlit(" hits ");
                        reveal_strlit(", for ");
                        reveal_strlit(" hp");
                        assert(msg@ =~= melee_message(w0, a as int));
                    }
                    log.log(msg);
                    SufferDamage::new_damage(&mut w.suffer_damage, target, dmg32);
                }
            }
            proof {
                assert forall|d: int| 0 <= d < w0.n() implies w.suffer_seq(d) == w0.suffer_seq(d)
                    + melee_additions(w0, d, a as int + 1) by {
                    assert(wpre.suffer_seq(d) == w0.suffer_seq(d) + melee_additions(
                        w0,
                        d,
                        a as int,
                    ));
                }
                let ghost a1 = a as int + 1;
                assert forall|j: int|
                    0 <= j < melee_messages(w0, a1).len() implies #[trigger] log.entries@[
                log0.entries@.len() + j]@ == melee_messages(w0, a1)[j] by {
                    assert(melee_messages(w0, a1).len() == melee_messages(w0, a as int).len() + (
                    if melee_resolves(w0, a as int) {
                        1int
                    } else {
                        0int
                    }));
                }
            }
            a = a + 1;
        }
        // Clear every melee intent.
        let ghost wmid = *w;
        let ghost logmid = *log;
        proof {
            assert forall|d: int| 0 <= d < w0.n() implies wmid.suffer_seq(d) == w0.suffer_seq(d)
                + melee_additions(w0, d, w0.n()) by {
                assert(w.suffer_seq(d) == w0.suffer_seq(d) + melee_additions(w0, d, w0.n()));
            }
        }
        let mut e: usize = 0;
        while e < n
            invariant
                w.wf(),
                n == w.n(),
                e <= n,
                w.alive == wmid.alive,
                w.players == wmid.players,
                w.monsters == wmid.monsters,
                w.names == wmid.names,
                w.positions == wmid.positions,
                w.renderables == wmid.renderables,
                w.blocks_tile == wmid.blocks_tile,
                w.combat_stats == wmid.combat_stats,
                w.viewsheds == wmid.viewsheds,
                w.confusion == wmid.confusion,
                w.items == wmid.items,
                w.consumables == wmid.consumables,
                w.ranged == wmid.ranged,
                w.inflicts_damage == wmid.inflicts_damage,
                w.area_of_effect == wmid.area_of_effect,
                w.provides_healing == wmid.provides_healing,
                w.equipable == wmid.equipable,
                w.equipped == wmid.equipped,
                w.melee_bonus == wmid.melee_bonus,
                w.defense_bonus == wmid.defense_bonus,
                w.in_backpack == wmid.in_backpack,
                w.wants_use == wmid.wants_use,
                w.wants_pickup == wmid.wants_pickup,
                w.wants_drop == wmid.wants_drop,
                w.wants_remove == wmid.wants_remove,
                w.to_delete == wmid.to_delete,
                w.suffer_damage == wmid.suffer_damage,
                log.entries == logmid.entries,
                w.wants_melee@.len() == n,
                forall|e2: int| 0 <= e2 < e ==> w.wants_melee@[e2] is None,
            decreases n - e,
        {
            w.wants_melee[e] = None;
            e = e + 1;
        }
        proof {
            assert forall|d: int| 0 <= d < w0.n() implies w.suffer_seq(d) == w0.suffer_seq(d)
                + melee_additions(w0, d, w0.n()) by {
                assert(wmid.suffer_seq(d) == w0.suffer_seq(d) + melee_additions(w0, d, w0.n()));
                assert(w.suffer_damage@[d] == wmid.suffer_damage@[d]);
            }
            assert forall|d: int|
                0 <= d < w0.n() implies (#[trigger] w.suffer_damage@[d] is Some == (
            w0.suffer_damage@[d] is Some || melee_additions(w0, d, w0.n()).len() > 0)) by {
                assert(w.suffer_damage@[d] == wmid.suffer_damage@[d]);
                assert(wmid.suffer_damage@[d] is Some == (w0.suffer_damage@[d] is Some
                    || melee_additions(w0, d, w0.n()).len() > 0));
            }
        }
    }
}

} // verus!
