//! Melee combat and damage resolution.

use dungeon_core::components::{CombatStats, Name, SufferDamage, WantsToMelee};
use dungeon_core::damage_system::{delete_the_dead, DamageSystem};
use dungeon_core::gamelog::GameLog;
use dungeon_core::melee_combat_system::MeleeCombatSystem;
use dungeon_core::world::World;

fn fighter(w: &mut World, name: &str, max_hp: i32, hp: i32, defense: i32, power: i32) -> usize {
    let e = w.spawn();
    w.names[e] = Some(Name {
        name: name.to_string(),
    });
    w.combat_stats[e] = Some(CombatStats {
        max_hp,
        hp,
        defense,
        power,
    });
    e
}

#[test]
fn melee_without_bonuses_deals_power_minus_defense() {
    // Attacker power 5, defender defense 2 and health 16: damage is 3 and
    // health drops to 13.
    let mut w = World::new();
    let mut log = GameLog::new();
    let attacker = fighter(&mut w, "Attacker", 20, 20, 2, 5);
    let defender = fighter(&mut w, "Defender", 16, 16, 2, 4);
    w.wants_melee[attacker] = Some(WantsToMelee { target: defender });

    MeleeCombatSystem::run(&mut w, &mut log);
    assert_eq!(
        w.suffer_damage[defender].as_ref().unwrap().amount,
        vec![3]
    );
    assert!(w.wants_melee.iter().all(|i| i.is_none()));
    assert_eq!(log.entries.last().unwrap(), "Attacker hits Defender, for 3 hp");

    DamageSystem::run(&mut w);
    assert_eq!(w.combat_stats[defender].unwrap().hp, 13);
    assert!(w.suffer_damage.iter().all(|s| s.is_none()));
}

#[test]
fn zero_damage_logs_no_effect_and_queues_nothing() {
    let mut w = World::new();
    let mut log = GameLog::new();
    let attacker = fighter(&mut w, "Weakling", 10, 10, 0, 1);
    let defender = fighter(&mut w, "Tank", 16, 16, 5, 4);
    w.wants_melee[attacker] = Some(WantsToMelee { target: defender });

    MeleeCombatSystem::run(&mut w, &mut log);
    assert!(w.suffer_damage[defender].is_none());
    assert_eq!(log.entries.last().unwrap(), "Weakling is unable to hurt Tank");
}

#[test]
fn dead_attacker_and_dead_defender_resolve_nothing() {
    let mut w = World::new();
    let mut log = GameLog::new();
    let dead = fighter(&mut w, "Dead", 10, 0, 0, 9);
    let live = fighter(&mut w, "Live", 10, 10, 0, 9);
    w.wants_melee[dead] = Some(WantsToMelee { target: live });
    w.wants_melee[live] = Some(WantsToMelee { target: dead });

    MeleeCombatSystem::run(&mut w, &mut log);
    assert!(w.suffer_damage[dead].is_none());
    assert!(w.suffer_damage[live].is_none());
    assert_eq!(log.entries.len(), 0);
    assert!(w.wants_melee.iter().all(|i| i.is_none()));
}

#[test]
fn damage_resolver_sums_all_pending_entries() {
    // Health after the pass equals previous health minus the sum of the
    // tick's entries, and the list is empty afterwards.
    let mut w = World::new();
    let victim = fighter(&mut w, "Victim", 30, 30, 0, 0);
    SufferDamage::new_damage(&mut w.suffer_damage, victim, 4);
    SufferDamage::new_damage(&mut w.suffer_damage, victim, 7);
    SufferDamage::new_damage(&mut w.suffer_damage, victim, 1);

    DamageSystem::run(&mut w);
    assert_eq!(w.combat_stats[victim].unwrap().hp, 30 - (4 + 7 + 1));
    assert!(w.suffer_damage[victim].is_none());
}

#[test]
fn mortality_removes_dead_monsters_but_never_the_player() {
    let mut w = World::new();
    let hero = fighter(&mut w, "Hero", 30, 0, 2, 5);
    w.players[hero] = Some(dungeon_core::components::Player {});
    let monster = fighter(&mut w, "Goblin", 16, -3, 1, 4);

    let defeated = delete_the_dead(&mut w);
    assert!(defeated);
    assert!(w.alive[hero]);
    assert!(!w.alive[monster]);
    assert!(w.combat_stats[monster].is_none());
}

#[test]
fn hit_messages_render_multi_digit_damage() {
    let mut w = World::new();
    let mut log = GameLog::new();
    let attacker = fighter(&mut w, "Ogre", 40, 40, 2, 30);
    let defender = fighter(&mut w, "Peasant", 16, 16, 2, 1);
    w.wants_melee[attacker] = Some(WantsToMelee { target: defender });
    MeleeCombatSystem::run(&mut w, &mut log);
    assert_eq!(log.entries.last().unwrap(), "Ogre hits Peasant, for 28 hp");
    assert_eq!(w.suffer_damage[defender].as_ref().unwrap().amount, vec![28]);
}

#[test]
fn multiple_attackers_accumulate_on_one_defender() {
    let mut w = World::new();
    let mut log = GameLog::new();
    let a1 = fighter(&mut w, "First", 10, 10, 0, 6);
    let a2 = fighter(&mut w, "Second", 10, 10, 0, 4);
    let defender = fighter(&mut w, "Defender", 20, 20, 1, 0);
    w.wants_melee[a1] = Some(WantsToMelee { target: defender });
    w.wants_melee[a2] = Some(WantsToMelee { target: defender });

    MeleeCombatSystem::run(&mut w, &mut log);
    assert_eq!(
        w.suffer_damage[defender].as_ref().unwrap().amount,
        vec![5, 3]
    );
    DamageSystem::run(&mut w);
    assert_eq!(w.combat_stats[defender].unwrap().hp, 12);
}
