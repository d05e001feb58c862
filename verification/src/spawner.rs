//! Spawning: the player, monsters and items, and filling a room with a
//! weighted random selection of them.

use vstd::prelude::*;

use crate::components::{
    AreaOfEffect, BlocksTile, CombatStats, Confusion, Consumable, DefenseBonus, Equipable,
    EquipmentSlot, InflictsDamage, Item, MeleePowerBonus, Monster, Name, Player, Position,
    ProvidesHealing, Ranged, Renderable, Rgb, Viewshed,
};
use crate::map::MAPWIDTH;
use crate::random_table::RandomTable;
use crate::world::World;

verus! {

/// Highest number of monsters a room roll can ask for.
pub const MAX_MONSTERS: i32 = 4;

/// Spawn the player: positioned, rendered, watching, named, and with the
/// standard starting stats.
pub fn player(w: &mut World, player_x: i32, player_y: i32) -> (e: usize)
    requires
        old(w).wf(),
        old(w).n() < usize::MAX,
    ensures
        final(w).wf(),
        e == old(w).n(),
        final(w).n() == old(w).n() + 1,
        forall|o: int|
            0 <= o < old(w).n() ==> World::entity_unchanged(*old(w), *final(w), o),
        final(w).to_delete@ == old(w).to_delete@,
        final(w).alive@[e as int],
        final(w).positions@[e as int] == Some(Position { x: player_x, y: player_y }),
        final(w).renderables@[e as int] is Some,
        final(w).players@[e as int] is Some,
        final(w).viewsheds@[e as int] is Some,
        final(w).viewsheds@[e as int]->0.range == 8,
        final(w).viewsheds@[e as int]->0.dirty == true,
        final(w).viewsheds@[e as int]->0.visible_tiles@.len() == 0,
        final(w).names@[e as int] is Some,
        final(w).names@[e as int]->0.name@ == "Player"@,
        final(w).combat_stats@[e as int] == Some(
            CombatStats { max_hp: 30, hp: 30, defense: 2, power: 5 },
        ),
        final(w).monsters@[e as int] is None,
        final(w).blocks_tile@[e as int] is None,
        final(w).items@[e as int] is None,
        final(w).equipped@[e as int] is None,
        final(w).in_backpack@[e as int] is None,
        final(w).suffer_damage@[e as int] is None,
        final(w).confusion@[e as int] is None,
        final(w).wants_melee@[e as int] is None,
        final(w).wants_use@[e as int] is None,
        final(w).wants_pickup@[e as int] is None,
        final(w).wants_drop@[e as int] is None,
        final(w).wants_remove@[e as int] is None,
{
    let e = w.spawn();
    w.positions[e] = Some(Position { x: player_x, y: player_y });
    w.renderables[e] = Some(
        Renderable {
            glyph: 64,
            fg: Rgb { r: 255, g: 255, b: 0 },
            bg: Rgb { r: 0, g: 0, b: 0 },
            render_order: 0,
        },
    );
    w.players[e] = Some(Player {  });
    w.viewsheds[e] = Some(Viewshed { visible_tiles: Vec::new(), range: 8, dirty: true });
    w.names[e] = Some(Name { name: String::from_str("Player") });
    w.combat_stats[e] = Some(CombatStats { max_hp: 30, hp: 30, defense: 2, power: 5 });
    proof {
        reveal_strlit("Player");
    }
    e
}

/// Spawn one monster with the given glyph and name: blocking, watching,
/// and with the standard monster stats.
pub fn monster(w: &mut World, x: i32, y: i32, glyph: u16, name: &str) -> (e: usize)
    requires
        old(w).wf(),
        old(w).n() < usize::MAX,
    ensures
        final(w).wf(),
        e == old(w).n(),
        final(w).n() == old(w).n() + 1,
        forall|o: int|
            0 <= o < old(w).n() ==> World::entity_unchanged(*old(w), *final(w), o),
        final(w).to_delete@ == old(w).to_delete@,
        final(w).alive@[e as int],
        final(w).positions@[e as int] == Some(Position { x, y }),
        final(w).monsters@[e as int] is Some,
        final(w).players@[e as int] is None,
        final(w).blocks_tile@[e as int] is Some,
        final(w).viewsheds@[e as int] is Some,
        final(w).viewsheds@[e as int]->0.range == 8,
        final(w).viewsheds@[e as int]->0.dirty == true,
        final(w).names@[e as int] is Some,
        final(w).names@[e as int]->0.name@ == name@,
        final(w).combat_stats@[e as int] == Some(
            CombatStats { max_hp: 16, hp: 16, defense: 1, power: 4 },
        ),
        final(w).items@[e as int] is None,
        final(w).wants_melee@[e as int] is None,
        final(w).wants_use@[e as int] is None,
        final(w).wants_pickup@[e as int] is None,
        final(w).wants_drop@[e as int] is None,
        final(w).wants_remove@[e as int] is None,
        final(w).suffer_damage@[e as int] is None,
        final(w).confusion@[e as int] is None,
{
    let e = w.spawn();
    w.positions[e] = Some(Position { x, y });
    w.renderables[e] = Some(
        Renderable {
            glyph,
            fg: Rgb { r: 255, g: 0, b: 0 },
            bg: Rgb { r: 0, g: 0, b: 0 },
            render_order: 1,
        },
    );
    w.viewsheds[e] = Some(Viewshed { visible_tiles: Vec::new(), range: 8, dirty: true });
    w.monsters[e] = Some(Monster {  });
    w.names[e] = Some(Name { name: name.to_owned() });
    w.blocks_tile[e] = Some(BlocksTile {  });
    w.combat_stats[e] = Some(CombatStats { max_hp: 16, hp: 16, defense: 1, power: 4 });
    e
}

/// Spawn an orc.
pub fn orc(w: &mut World, x: i32, y: i32)
    requires
        old(w).wf(),
        old(w).n() < usize::MAX,
    ensures
        final(w).wf(),
        final(w).n() == old(w).n() + 1,
        forall|o: int|
            0 <= o < old(w).n() ==> World::entity_unchanged(*old(w), *final(w), o),
        final(w).to_delete@ == old(w).to_delete@,
{
    monster(w, x, y, 111, "Orc");
}

/// Spawn a goblin.
pub fn goblin(w: &mut World, x: i32, y: i32)
    requires
        old(w).wf(),
        old(w).n() < usize::MAX,
    ensures
        final(w).wf(),
        final(w).n() == old(w).n() + 1,
        forall|o: int|
            0 <= o < old(w).n() ==> World::entity_unchanged(*old(w), *final(w), o),
        final(w).to_delete@ == old(w).to_delete@,
{
    monster(w, x, y, 103, "Goblin");
}

/// Spawn an item entity at a position with a name and glyph, leaving the
/// capability payloads to the caller.
fn item_base(w: &mut World, x: i32, y: i32, glyph: u16, color: Rgb, name: &str) -> (e: usize)
    requires
        old(w).wf(),
        old(w).n() < usize::MAX,
    ensures
        final(w).wf(),
        e == old(w).n(),
        final(w).n() == old(w).n() + 1,
        forall|o: int|
            0 <= o < old(w).n() ==> World::entity_unchanged(*old(w), *final(w), o),
        final(w).to_delete@ == old(w).to_delete@,
        final(w).alive@[e as int],
        final(w).positions@[e as int] == Some(Position { x, y }),
        final(w).items@[e as int] is Some,
        final(w).names@[e as int] is Some,
        final(w).names@[e as int]->0.name@ == name@,
        final(w).players@[e as int] is None,
        final(w).monsters@[e as int] is None,
        final(w).blocks_tile@[e as int] is None,
        final(w).combat_stats@[e as int] is None,
        final(w).viewsheds@[e as int] is None,
        final(w).consumables@[e as int] is None,
        final(w).ranged@[e as int] is None,
        final(w).inflicts_damage@[e as int] is None,
        final(w).area_of_effect@[e as int] is None,
        final(w).provides_healing@[e as int] is None,
        final(w).equipable@[e as int] is None,
        final(w).equipped@[e as int] is None,
        final(w).melee_bonus@[e as int] is None,
        final(w).defense_bonus@[e as int] is None,
        final(w).in_backpack@[e as int] is None,
        final(w).confusion@[e as int] is None,
        final(w).suffer_damage@[e as int] is None,
        final(w).wants_melee@[e as int] is None,
        final(w).wants_use@[e as int] is None,
        final(w).wants_pickup@[e as int] is None,
        final(w).wants_drop@[e as int] is None,
        final(w).wants_remove@[e as int] is None,
{
    let e = w.spawn();
    w.positions[e] = Some(Position { x, y });
    w.renderables[e] = Some(
        Renderable { glyph, fg: color, bg: Rgb { r: 0, g: 0, b: 0 }, render_order: 2 },
    );
    w.names[e] = Some(Name { name: name.to_owned() });
    w.items[e] = Some(Item {  });
    e
}

/// Spawn a health potion: a consumable that heals its drinker.
pub fn health_potion(w: &mut World, x: i32, y: i32)
    requires
        old(w).wf(),
        old(w).n() < usize::MAX,
    ensures
        final(w).wf(),
        final(w).n() == old(w).n() + 1,
        forall|o: int|
            0 <= o < old(w).n() ==> World::entity_unchanged(*old(w), *final(w), o),
        final(w).to_delete@ == old(w).to_delete@,
        final(w).items@[old(w).n()] is Some,
        final(w).consumables@[old(w).n()] is Some,
        final(w).provides_healing@[old(w).n()] == Some(ProvidesHealing { heal_amount: 8 }),
        final(w).names@[old(w).n()]->0.name@ == "Health Potion"@,
{
    let e = item_base(w, x, y, 173, Rgb { r: 255, g: 0, b: 255 }, "Health Potion");
    let ghost wmid = *w;
    w.consumables[e] = Some(Consumable {  });
    w.provides_healing[e] = Some(ProvidesHealing { heal_amount: 8 });
    proof {
        assert forall|o: int|
            0 <= o < old(w).n() implies World::entity_unchanged(*old(w), *w, o) by {
            assert(World::entity_unchanged(*old(w), wmid, o));
        }
    }
}

/// Spawn a magic missile scroll: a ranged consumable that damages the
/// occupants of one tile.
pub fn magic_missile_scroll(w: &mut World, x: i32, y: i32)
    requires
        old(w).wf(),
        old(w).n() < usize::MAX,
    ensures
        final(w).wf(),
        final(w).n() == old(w).n() + 1,
        forall|o: int|
            0 <= o < old(w).n() ==> World::entity_unchanged(*old(w), *final(w), o),
        final(w).to_delete@ == old(w).to_delete@,
        final(w).items@[old(w).n()] is Some,
        final(w).consumables@[old(w).n()] is Some,
        final(w).ranged@[old(w).n()] == Some(Ranged { range: 6 }),
        final(w).inflicts_damage@[old(w).n()] == Some(InflictsDamage { damage: 8 }),
        final(w).names@[old(w).n()]->0.name@ == "Magic Missile Scroll"@,
{
    let e = item_base(w, x, y, 41, Rgb { r: 0, g: 255, b: 255 }, "Magic Missile Scroll");
    let ghost wmid = *w;
    w.consumables[e] = Some(Consumable {  });
    w.ranged[e] = Some(Ranged { range: 6 });
    w.inflicts_damage[e] = Some(InflictsDamage { damage: 8 });
    proof {
        assert forall|o: int|
            0 <= o < old(w).n() implies World::entity_unchanged(*old(w), *w, o) by {
            assert(World::entity_unchanged(*old(w), wmid, o));
        }
    }
}

/// Spawn a fireball scroll: a ranged consumable with a blast radius.
pub fn fireball_scroll(w: &mut World, x: i32, y: i32)
    requires
        old(w).wf(),
        old(w).n() < usize::MAX,
    ensures
        final(w).wf(),
        final(w).n() == old(w).n() + 1,
        forall|o: int|
            0 <= o < old(w).n() ==> World::entity_unchanged(*old(w), *final(w), o),
        final(w).to_delete@ == old(w).to_delete@,
        final(w).items@[old(w).n()] is Some,
        final(w).consumables@[old(w).n()] is Some,
        final(w).ranged@[old(w).n()] == Some(Ranged { range: 6 }),
        final(w).inflicts_damage@[old(w).n()] == Some(InflictsDamage { damage: 20 }),
        final(w).area_of_effect@[old(w).n()] == Some(AreaOfEffect { radius: 3 }),
        final(w).names@[old(w).n()]->0.name@ == "Fireball Scroll"@,
        final(w).equipable@[old(w).n()] is None,
        final(w).provides_healing@[old(w).n()] is None,
        final(w).confusion@[old(w).n()] is None,
{
    let e = item_base(w, x, y, 41, Rgb { r: 255, g: 165, b: 0 }, "Fireball Scroll");
    let ghost wmid = *w;
    w.consumables[e] = Some(Consumable {  });
    w.ranged[e] = Some(Ranged { range: 6 });
    w.inflicts_damage[e] = Some(InflictsDamage { damage: 20 });
    w.area_of_effect[e] = Some(AreaOfEffect { radius: 3 });
    proof {
        assert forall|o: int|
            0 <= o < old(w).n() implies World::entity_unchanged(*old(w), *w, o) by {
            assert(World::entity_unchanged(*old(w), wmid, o));
        }
    }
}

/// Spawn a confusion scroll: a ranged consumable that stuns its targets.
pub fn confusion_scroll(w: &mut World, x: i32, y: i32)
    requires
        old(w).wf(),
        old(w).n() < usize::MAX,
    ensures
        final(w).wf(),
        final(w).n() == old(w).n() + 1,
        forall|o: int|
            0 <= o < old(w).n() ==> World::entity_unchanged(*old(w), *final(w), o),
        final(w).to_delete@ == old(w).to_delete@,
        final(w).items@[old(w).n()] is Some,
        final(w).consumables@[old(w).n()] is Some,
        final(w).ranged@[old(w).n()] == Some(Ranged { range: 6 }),
        final(w).confusion@[old(w).n()] == Some(Confusion { turns: 4 }),
        final(w).names@[old(w).n()]->0.name@ == "Confusion Scroll"@,
{
    let e = item_base(w, x, y, 41, Rgb { r: 255, g: 105, b: 180 }, "Confusion Scroll");
    let ghost wmid = *w;
    w.consumables[e] = Some(Consumable {  });
    w.ranged[e] = Some(Ranged { range: 6 });
    w.confusion[e] = Some(Confusion { turns: 4 });
    proof {
        assert forall|o: int|
            0 <= o < old(w).n() implies World::entity_unchanged(*old(w), *w, o) by {
            assert(World::entity_unchanged(*old(w), wmid, o));
        }
    }
}

/// Spawn a dagger: a modest melee-slot weapon.
pub fn dagger(w: &mut World, x: i32, y: i32)
    requires
        old(w).wf(),
        old(w).n() < usize::MAX,
    ensures
        final(w).wf(),
        final(w).n() == old(w).n() + 1,
        forall|o: int|
            0 <= o < old(w).n() ==> World::entity_unchanged(*old(w), *final(w), o),
        final(w).to_delete@ == old(w).to_delete@,
        final(w).items@[old(w).n()] is Some,
        final(w).equipable@[old(w).n()] == Some(Equipable { slot: EquipmentSlot::Melee }),
        final(w).melee_bonus@[old(w).n()] == Some(MeleePowerBonus { power: 2 }),
        final(w).consumables@[old(w).n()] is None,
        final(w).names@[old(w).n()]->0.name@ == "Dagger"@,
{
    let e = item_base(w, x, y, 47, Rgb { r: 0, g: 255, b: 255 }, "Dagger");
    let ghost wmid = *w;
    w.equipable[e] = Some(Equipable { slot: EquipmentSlot::Melee });
    w.melee_bonus[e] = Some(MeleePowerBonus { power: 2 });
    proof {
        assert forall|o: int|
            0 <= o < old(w).n() implies World::entity_unchanged(*old(w), *w, o) by {
            assert(World::entity_unchanged(*old(w), wmid, o));
        }
    }
}

/// Spawn a longsword: a strong melee-slot weapon.
pub fn longsword(w: &mut World, x: i32, y: i32)
    requires
        old(w).wf(),
        old(w).n() < usize::MAX,
    ensures
        final(w).wf(),
        final(w).n() == old(w).n() + 1,
        forall|o: int|
            0 <= o < old(w).n() ==> World::entity_unchanged(*old(w), *final(w), o),
        final(w).to_delete@ == old(w).to_delete@,
        final(w).items@[old(w).n()] is Some,
        final(w).equipable@[old(w).n()] == Some(Equipable { slot: EquipmentSlot::Melee }),
        final(w).melee_bonus@[old(w).n()] == Some(MeleePowerBonus { power: 4 }),
        final(w).consumables@[old(w).n()] is None,
        final(w).names@[old(w).n()]->0.name@ == "Longsword"@,
{
    let e = item_base(w, x, y, 47, Rgb { r: 255, g: 255, b: 0 }, "Longsword");
    let ghost wmid = *w;
    w.equipable[e] = Some(Equipable { slot: EquipmentSlot::Melee });
    w.melee_bonus[e] = Some(MeleePowerBonus { power: 4 });
    proof {
        assert forall|o: int|
            0 <= o < old(w).n() implies World::entity_unchanged(*old(w), *w, o) by {
            assert(World::entity_unchanged(*old(w), wmid, o));
        }
    }
}

/// Spawn a shield: a modest shield-slot item.
pub fn shield(w: &mut World, x: i32, y: i32)
    requires
        old(w).wf(),
        old(w).n() < usize::MAX,
    ensures
        final(w).wf(),
        final(w).n() == old(w).n() + 1,
        forall|o: int|
            0 <= o < old(w).n() ==> World::entity_unchanged(*old(w), *final(w), o),
        final(w).to_delete@ == old(w).to_delete@,
        final(w).items@[old(w).n()] is Some,
        final(w).equipable@[old(w).n()] == Some(Equipable { slot: EquipmentSlot::Shield }),
        final(w).defense_bonus@[old(w).n()] == Some(DefenseBonus { defense: 1 }),
        final(w).names@[old(w).n()]->0.name@ == "Shield"@,
{
    let e = item_base(w, x, y, 40, Rgb { r: 0, g: 255, b: 255 }, "Shield");
    let ghost wmid = *w;
    w.equipable[e] = Some(Equipable { slot: EquipmentSlot::Shield });
    w.defense_bonus[e] = Some(DefenseBonus { defense: 1 });
    proof {
        assert forall|o: int|
            0 <= o < old(w).n() implies World::entity_unchanged(*old(w), *w, o) by {
            assert(World::entity_unchanged(*old(w), wmid, o));
        }
    }
}

/// Spawn a tower shield: a strong shield-slot item.
pub fn tower_shield(w: &mut World, x: i32, y: i32)
    requires
        old(w).wf(),
        old(w).n() < usize::MAX,
    ensures
        final(w).wf(),
        final(w).n() == old(w).n() + 1,
        forall|o: int|
            0 <= o < old(w).n() ==> World::entity_unchanged(*old(w), *final(w), o),
        final(w).to_delete@ == old(w).to_delete@,
        final(w).items@[old(w).n()] is Some,
        final(w).equipable@[old(w).n()] == Some(Equipable { slot: EquipmentSlot::Shield }),
        final(w).defense_bonus@[old(w).n()] == Some(DefenseBonus { defense: 3 }),
        final(w).names@[old(w).n()]->0.name@ == "Tower Shield"@,
{
    let e = item_base(w, x, y, 40, Rgb { r: 255, g: 255, b: 0 }, "Tower Shield");
    let ghost wmid = *w;
    w.equipable[e] = Some(Equipable { slot: EquipmentSlot::Shield });
    w.defense_bonus[e] = Some(DefenseBonus { defense: 3 });
    proof {
        assert forall|o: int|
            0 <= o < old(w).n() implies World::entity_unchanged(*old(w), *w, o) by {
            assert(World::entity_unchanged(*old(w), wmid, o));
        }
    }
}

/// The level's spawn table: weights grow with depth for the stronger
/// entries.
pub fn room_table(map_depth: i32) -> (t: RandomTable)
    requires
        0 <= map_depth <= 10000,
    ensures
        t.wf(),
        t.total_weight < i32::MAX,
{
    RandomTable::new().add("Goblin", 10).add("Orc", 1 + map_depth).add("Health Potion", 7).add(
        "Fireball Scroll",
        2 + map_depth,
    ).add("Confusion Scroll", 2 + map_depth).add("Magic Missile Scroll", 4).add("Dagger", 3).add(
        "Shield",
        3,
    ).add("Longsword", map_depth - 1).add("Tower Shield", map_depth - 1)
}

/// Fill a room with randomly placed, randomly drawn monsters and items.
/// The draw count and positions come from the generator; every spawn
/// lands on a distinct cell inside the room.
pub fn spawn_room(
    w: &mut World,
    rng: &mut rltk::RandomNumberGenerator,
    room: &crate::map::Rect,
    map_depth: i32,
)
    requires
        old(w).wf(),
        0 <= room.x1 < room.x2 < 80,
        0 <= room.y1 < room.y2 < 50,
        0 <= map_depth <= 10000,
        old(w).n() + 200 < usize::MAX,
    ensures
        final(w).wf(),
        final(w).n() >= old(w).n(),
        forall|o: int|
            0 <= o < old(w).n() ==> World::entity_unchanged(*old(w), *final(w), o),
        final(w).to_delete@ == old(w).to_delete@,
{
    let spawn_table = room_table(map_depth);
    let mut spawn_points: Vec<(usize, String)> = Vec::new();

    let num_spawns = crate::rng::rng_roll_dice(rng, MAX_MONSTERS + 3) + (map_depth - 1) - 3;
    let mut i: i32 = 0;
    while i < num_spawns && spawn_points.len() < 200
        invariant
            spawn_table.wf(),
            spawn_table.total_weight < i32::MAX,
            0 <= room.x1 < room.x2 < 80,
            0 <= room.y1 < room.y2 < 50,
            spawn_points@.len() <= 200,
            i <= num_spawns || num_spawns < 0,
            forall|k: int|
                0 <= k < spawn_points@.len() ==> (#[trigger] spawn_points@[k]).0 < 4000,
        decreases num_spawns - i,
    {
        let mut added = false;
        let mut tries: i32 = 0;
        let ghost len0 = spawn_points@.len();
        while !added && tries < 20
            invariant
                spawn_table.wf(),
                spawn_table.total_weight < i32::MAX,
                0 <= room.x1 < room.x2 < 80,
                0 <= room.y1 < room.y2 < 50,
                len0 < 200,
                spawn_points@.len() == len0 + (if added {
                    1int
                } else {
                    0int
                }),
                0 <= tries <= 20,
                forall|k: int|
                    0 <= k < spawn_points@.len() ==> (#[trigger] spawn_points@[k]).0 < 4000,
            decreases 20 - tries, (if added { 0int } else { 1int }),
        {
            let x = room.x1 + crate::rng::rng_roll_dice(rng, room.x2 - room.x1);
            let y = room.y1 + crate::rng::rng_roll_dice(rng, room.y2 - room.y1);
            let idx = (y as usize) * MAPWIDTH + (x as usize);
            let mut occupied = false;
            let mut k: usize = 0;
            while k < spawn_points.len()
                invariant
                    k <= spawn_points@.len(),
                decreases spawn_points@.len() - k,
            {
                if spawn_points[k].0 == idx {
                    occupied = true;
                }
                k = k + 1;
            }
            if !occupied {
                let name = spawn_table.roll(rng);
                spawn_points.push((idx, name));
                added = true;
            } else {
                tries = tries + 1;
            }
        }
        i = i + 1;
    }

    // Place what was drawn.
    let mut k: usize = 0;
    let ghost w00 = *w;
    while k < spawn_points.len()
        invariant
            w.wf(),
            w00.n() + 200 < usize::MAX,
            w00.n() <= w.n() <= w00.n() + k,
            k <= spawn_points@.len(),
            spawn_points@.len() <= 200,
            forall|p: int|
                0 <= p < spawn_points@.len() ==> (#[trigger] spawn_points@[p]).0 < 4000,
            forall|o: int| 0 <= o < w00.n() ==> World::entity_unchanged(w00, *w, o),
            w.to_delete@ == w00.to_delete@,
        decreases spawn_points@.len() - k,
    {
        let ghost wpre = *w;
        let idx = spawn_points[k].0;
        let x = (idx % MAPWIDTH) as i32;
        let y = (idx / MAPWIDTH) as i32;
        let name_ref: &str = spawn_points[k].1.as_str();
        if str_eq(name_ref, "Goblin") {
            goblin(w, x, y);
        } else if str_eq(name_ref, "Orc") {
            orc(w, x, y);
        } else if str_eq(name_ref, "Health Potion") {
            health_potion(w, x, y);
        } else if str_eq(name_ref, "Fireball Scroll") {
            fireball_scroll(w, x, y);
        } else if str_eq(name_ref, "Confusion Scroll") {
            confusion_scroll(w, x, y);
        } else if str_eq(name_ref, "Magic Missile Scroll") {
            magic_missile_scroll(w, x, y);
        } else if str_eq(name_ref, "Dagger") {
            dagger(w, x, y);
        } else if str_eq(name_ref, "Shield") {
            shield(w, x, y);
        } else if str_eq(name_ref, "Longsword") {
            longsword(w, x, y);
        } else if str_eq(name_ref, "Tower Shield") {
            tower_shield(w, x, y);
        }
        proof {
            assert forall|o: int|
                0 <= o < w00.n() implies World::entity_unchanged(w00, *w, o) by {
                assert(World::entity_unchanged(w00, wpre, o));
                assert(World::entity_unchanged(wpre, *w, o));
            }
        }
        k = k + 1;
    }
}

/// Whether two strings hold the same characters.
fn str_eq(a: &str, b: &str) -> (r: bool)
    ensures
        r == (a@ == b@),
{
    let sa = a.to_owned();
    let sb = b.to_owned();
    sa.eq(&sb)
}

} // verus!
