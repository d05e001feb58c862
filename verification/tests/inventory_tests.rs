//! Item use: equipping, targeting, damage, confusion, healing, and
//! consumption; picking up and dropping.

use dungeon_core::components::{
    CombatStats, Name, Point, Position, WantsToDropItem, WantsToPickupItem, WantsToRemoveItem,
    WantsToUseItem,
};
use dungeon_core::gamelog::GameLog;
use dungeon_core::inventory_system::{
    ItemCollectionSystem, ItemDropSystem, ItemRemoveSystem, ItemUseSystem,
};
use dungeon_core::map::{GameMap, TileType};
use dungeon_core::map_indexing_system::MapIndexingSystem;
use dungeon_core::spawner;
use dungeon_core::world::World;

fn open_map(width: i32, height: i32) -> GameMap {
    let mut m = GameMap::new(width, height, 1);
    for i in 0..m.tiles.len() {
        m.tiles[i] = TileType::Floor;
    }
    m
}

fn person(w: &mut World, name: &str, x: i32, y: i32) -> usize {
    let e = w.spawn();
    w.names[e] = Some(Name {
        name: name.to_string(),
    });
    w.positions[e] = Some(Position { x, y });
    w.combat_stats[e] = Some(CombatStats {
        max_hp: 30,
        hp: 20,
        defense: 2,
        power: 5,
    });
    e
}

#[test]
fn equip_swap_is_exclusive_per_slot() {
    // A wielder with a dagger equipped who uses a longsword ends with the
    // dagger back in the backpack and only the longsword equipped.
    let mut w = World::new();
    let mut log = GameLog::new();
    let map = open_map(10, 10);
    let wielder = person(&mut w, "Hero", 2, 2);
    spawner::dagger(&mut w, 3, 3);
    let dagger = w.alive.len() - 1;
    spawner::longsword(&mut w, 4, 4);
    let sword = w.alive.len() - 1;
    w.equipped[dagger] = Some(dungeon_core::components::Equipped {
        owner: wielder,
        slot: dungeon_core::components::EquipmentSlot::Melee,
    });
    w.positions[dagger] = None;
    w.positions[sword] = None;
    w.in_backpack[sword] = Some(dungeon_core::components::InBackpack { owner: wielder });
    w.wants_use[wielder] = Some(WantsToUseItem {
        item: sword,
        target: None,
    });

    ItemUseSystem::run(&mut w, &mut log, &map, wielder);

    assert!(w.equipped[dagger].is_none());
    assert_eq!(w.in_backpack[dagger].unwrap().owner, wielder);
    let eq = w.equipped[sword].unwrap();
    assert_eq!(eq.owner, wielder);
    assert_eq!(eq.slot, dungeon_core::components::EquipmentSlot::Melee);
    assert!(w.in_backpack[sword].is_none());
    // At most one item now sits in the wielder's melee slot.
    let in_slot = (0..w.alive.len())
        .filter(|&j| {
            w.equipped[j].map_or(false, |q| {
                q.owner == wielder && q.slot == dungeon_core::components::EquipmentSlot::Melee
            })
        })
        .count();
    assert_eq!(in_slot, 1);
    // Equipment is never consumed.
    assert!(w.to_delete.is_empty());
    assert!(w.wants_use.iter().all(|i| i.is_none()));
    // The swap tells the wielder what happened, in order.
    assert_eq!(
        log.entries,
        vec!["You unequip Dagger.".to_string(), "You equip Longsword.".to_string()]
    );
}

#[test]
fn fireball_hits_every_occupant_in_the_blast_and_is_consumed() {
    let mut w = World::new();
    let mut log = GameLog::new();
    let mut map = open_map(20, 20);
    let user = person(&mut w, "Hero", 2, 2);
    w.players[user] = Some(dungeon_core::components::Player {});
    let orc1 = person(&mut w, "First Orc", 10, 10);
    let orc2 = person(&mut w, "Second Orc", 11, 10);
    spawner::fireball_scroll(&mut w, 2, 2);
    let scroll = w.alive.len() - 1;
    MapIndexingSystem::run(&mut map, &w);
    w.wants_use[user] = Some(WantsToUseItem {
        item: scroll,
        target: Some(Point { x: 10, y: 10 }),
    });

    ItemUseSystem::run(&mut w, &mut log, &map, user);

    assert_eq!(w.suffer_damage[orc1].as_ref().unwrap().amount, vec![20]);
    assert_eq!(w.suffer_damage[orc2].as_ref().unwrap().amount, vec![20]);
    // The scroll is consumable and had targets: it goes at the next
    // maintenance step.
    assert_eq!(w.to_delete, vec![scroll]);
    w.maintain();
    assert!(!w.alive[scroll]);
}

#[test]
fn damage_scroll_without_targets_is_not_consumed() {
    let mut w = World::new();
    let mut log = GameLog::new();
    let mut map = open_map(20, 20);
    let user = person(&mut w, "Hero", 2, 2);
    spawner::magic_missile_scroll(&mut w, 2, 2);
    let scroll = w.alive.len() - 1;
    MapIndexingSystem::run(&mut map, &w);
    // Aimed at an empty tile: no occupants, nothing spent.
    w.wants_use[user] = Some(WantsToUseItem {
        item: scroll,
        target: Some(Point { x: 15, y: 15 }),
    });

    ItemUseSystem::run(&mut w, &mut log, &map, user);
    assert!(w.to_delete.is_empty());
    assert!(w.alive[scroll]);
}

#[test]
fn healing_is_capped_at_max_health_and_potion_is_consumed() {
    let mut w = World::new();
    let mut log = GameLog::new();
    let map = open_map(10, 10);
    let user = person(&mut w, "Hero", 2, 2);
    if let Some(stats) = w.combat_stats[user].as_mut() {
        stats.hp = 25;
    }
    spawner::health_potion(&mut w, 2, 2);
    let potion = w.alive.len() - 1;
    w.wants_use[user] = Some(WantsToUseItem {
        item: potion,
        target: None,
    });

    ItemUseSystem::run(&mut w, &mut log, &map, user);
    // 25 + 8 exceeds the 30 maximum: capped.
    assert_eq!(w.combat_stats[user].unwrap().hp, 30);
    assert_eq!(w.to_delete, vec![potion]);
}

#[test]
fn confusion_scroll_attaches_turns_to_each_target() {
    let mut w = World::new();
    let mut log = GameLog::new();
    let mut map = open_map(20, 20);
    let user = person(&mut w, "Hero", 2, 2);
    let orc = person(&mut w, "Orc", 8, 8);
    spawner::confusion_scroll(&mut w, 2, 2);
    let scroll = w.alive.len() - 1;
    MapIndexingSystem::run(&mut map, &w);
    w.wants_use[user] = Some(WantsToUseItem {
        item: scroll,
        target: Some(Point { x: 8, y: 8 }),
    });

    ItemUseSystem::run(&mut w, &mut log, &map, user);
    assert_eq!(w.confusion[orc].unwrap().turns, 4);
    assert_eq!(w.to_delete, vec![scroll]);
}

#[test]
fn an_untargeted_damage_item_strikes_the_user_not_the_player() {
    // With no aim point the target list is the user alone, even when the
    // user is not the designated player.
    let mut w = World::new();
    let mut log = GameLog::new();
    let map = open_map(10, 10);
    let hero = person(&mut w, "Hero", 2, 2);
    w.players[hero] = Some(dungeon_core::components::Player {});
    let goblin = person(&mut w, "Goblin", 5, 5);
    spawner::magic_missile_scroll(&mut w, 5, 5);
    let scroll = w.alive.len() - 1;
    w.wants_use[goblin] = Some(WantsToUseItem {
        item: scroll,
        target: None,
    });
    ItemUseSystem::run(&mut w, &mut log, &map, hero);
    assert_eq!(w.suffer_damage[goblin].as_ref().unwrap().amount, vec![8]);
    assert!(w.suffer_damage[hero].is_none(), "the player is untouched");
    assert_eq!(w.to_delete, vec![scroll]);
}

#[test]
fn pickup_moves_item_off_the_map_into_the_backpack() {
    let mut w = World::new();
    let mut log = GameLog::new();
    let collector = person(&mut w, "Hero", 2, 2);
    w.players[collector] = Some(dungeon_core::components::Player {});
    spawner::health_potion(&mut w, 2, 2);
    let potion = w.alive.len() - 1;
    w.wants_pickup[collector] = Some(WantsToPickupItem {
        collected_by: collector,
        item: potion,
    });

    ItemCollectionSystem::run(&mut w, &mut log, collector);
    assert!(w.positions[potion].is_none());
    assert_eq!(w.in_backpack[potion].unwrap().owner, collector);
    assert_eq!(log.entries.last().unwrap(), "You pick up the Health Potion.");
    assert!(w.wants_pickup.iter().all(|i| i.is_none()));
}

#[test]
fn drop_places_item_at_the_droppers_feet() {
    let mut w = World::new();
    let mut log = GameLog::new();
    let dropper = person(&mut w, "Hero", 7, 3);
    w.players[dropper] = Some(dungeon_core::components::Player {});
    spawner::health_potion(&mut w, 0, 0);
    let potion = w.alive.len() - 1;
    w.positions[potion] = None;
    w.in_backpack[potion] = Some(dungeon_core::components::InBackpack { owner: dropper });
    w.wants_drop[dropper] = Some(WantsToDropItem { item: potion });

    ItemDropSystem::run(&mut w, &mut log, dropper);
    let p = w.positions[potion].unwrap();
    assert_eq!((p.x, p.y), (7, 3));
    assert!(w.in_backpack[potion].is_none());
    assert_eq!(log.entries.last().unwrap(), "You drop the Health Potion.");
    assert!(w.wants_drop.iter().all(|i| i.is_none()));
}

#[test]
fn unequip_returns_the_item_to_the_backpack() {
    let mut w = World::new();
    let remover = person(&mut w, "Hero", 2, 2);
    spawner::dagger(&mut w, 0, 0);
    let dagger = w.alive.len() - 1;
    w.positions[dagger] = None;
    w.equipped[dagger] = Some(dungeon_core::components::Equipped {
        owner: remover,
        slot: dungeon_core::components::EquipmentSlot::Melee,
    });
    w.wants_remove[remover] = Some(WantsToRemoveItem { item: dagger });

    ItemRemoveSystem::run(&mut w);
    assert!(w.equipped[dagger].is_none());
    assert_eq!(w.in_backpack[dagger].unwrap().owner, remover);
    assert!(w.wants_remove.iter().all(|i| i.is_none()));
}

#[test]
fn equip_changes_melee_bonus_from_two_to_four() {
    // Effective power bonus moves with the equipped weapon: a dagger
    // gives +2, the longsword +4.
    let mut w = World::new();
    let mut log = GameLog::new();
    let map = open_map(10, 10);
    let wielder = person(&mut w, "Hero", 2, 2);
    let victim = person(&mut w, "Victim", 3, 3);
    spawner::dagger(&mut w, 0, 0);
    let dagger = w.alive.len() - 1;
    spawner::longsword(&mut w, 0, 0);
    let sword = w.alive.len() - 1;
    w.positions[dagger] = None;
    w.positions[sword] = None;
    w.equipped[dagger] = Some(dungeon_core::components::Equipped {
        owner: wielder,
        slot: dungeon_core::components::EquipmentSlot::Melee,
    });

    // With the dagger: damage is power 5 + 2 - defense 2 = 5.
    w.wants_melee[wielder] = Some(dungeon_core::components::WantsToMelee { target: victim });
    dungeon_core::melee_combat_system::MeleeCombatSystem::run(&mut w, &mut log);
    assert_eq!(w.suffer_damage[victim].as_ref().unwrap().amount, vec![5]);
    w.suffer_damage[victim] = None;

    // Swap to the longsword: damage becomes 5 + 4 - 2 = 7.
    w.wants_use[wielder] = Some(WantsToUseItem {
        item: sword,
        target: None,
    });
    ItemUseSystem::run(&mut w, &mut log, &map, wielder);
    w.wants_melee[wielder] = Some(dungeon_core::components::WantsToMelee { target: victim });
    dungeon_core::melee_combat_system::MeleeCombatSystem::run(&mut w, &mut log);
    assert_eq!(w.suffer_damage[victim].as_ref().unwrap().amount, vec![7]);
}
