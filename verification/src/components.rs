//! Component records. Each component is independently optional on an entity;
//! an entity is a plain index into the world's component tables.

use vstd::prelude::*;

verus! {

/// A map cell coordinate.
#[derive(Clone, Copy, PartialEq, Eq, Structural, Debug)]
pub struct Point {
    pub x: i32,
    pub y: i32,
}

/// Location of an entity on the map.
#[derive(Clone, Copy, PartialEq, Eq, Structural, Debug)]
pub struct Position {
    pub x: i32,
    pub y: i32,
}

/// An 8-bit color triple.
#[derive(Clone, Copy, PartialEq, Eq, Structural, Debug)]
pub struct Rgb {
    pub r: u8,
    pub g: u8,
    pub b: u8,
}

/// Display glyph, colors and draw-order priority.
/// Only read by the presentation layer; carried here so spawners can set it.
#[derive(Clone, Copy, PartialEq, Eq, Structural, Debug)]
pub struct Renderable {
    pub glyph: u16,
    pub fg: Rgb,
    pub bg: Rgb,
    pub render_order: i32,
}

/// Marks the player character.
#[derive(Clone, Copy, PartialEq, Eq, Structural, Debug)]
pub struct Player {}

/// Marks an autonomous monster.
#[derive(Clone, Copy, PartialEq, Eq, Structural, Debug)]
pub struct Monster {}

/// A display name.
#[derive(Clone, Debug)]
pub struct Name {
    pub name: String,
}

/// The entity contributes to tile blocking.
#[derive(Clone, Copy, PartialEq, Eq, Structural, Debug)]
pub struct BlocksTile {}

/// Combat statistics. Current health may transiently drop below zero
/// before the mortality sweep removes the entity.
#[derive(Clone, Copy, PartialEq, Eq, Structural, Debug)]
pub struct CombatStats {
    pub max_hp: i32,
    pub hp: i32,
    pub defense: i32,
    pub power: i32,
}

/// Tiles an entity can currently see, its sight range, and a flag marking
/// that the set must be recomputed (set whenever the holder moves).
#[derive(Clone, Debug)]
pub struct Viewshed {
    pub visible_tiles: Vec<Point>,
    pub range: i32,
    pub dirty: bool,
}

/// Pending damage amounts accumulated from multiple sources within one tick.
#[derive(Clone, Debug)]
pub struct SufferDamage {
    pub amount: Vec<i32>,
}

impl SufferDamage {
    /// Append one pending damage amount to `victim`, creating its list on
    /// first use; no other entity's list is touched.
    pub fn new_damage(store: &mut Vec<Option<SufferDamage>>, victim: usize, amount: i32)
        requires
            victim < old(store)@.len(),
        ensures
            final(store)@.len() == old(store)@.len(),
            final(store)@[victim as int] is Some,
            final(store)@[victim as int]->0.amount@ == (if old(store)@[victim as int] is Some {
                old(store)@[victim as int]->0.amount@
            } else {
                Seq::<i32>::empty()
            }).push(amount),
            forall|o: int|
                0 <= o < old(store)@.len() && o != victim ==> final(store)@[o] == old(store)@[o],
    {
        if store[victim].is_some() {
            match &mut store[victim] {
                Some(s) => {
                    s.amount.push(amount);
                },
                None => {},
            }
        } else {
            let mut v: Vec<i32> = Vec::new();
            v.push(amount);
            store[victim] = Some(SufferDamage { amount: v });
        }
    }
}

/// Remaining turns an actor is incapacitated.
#[derive(Clone, Copy, PartialEq, Eq, Structural, Debug)]
pub struct Confusion {
    pub turns: i32,
}

/// Slots that equipable entities can occupy.
#[derive(Clone, Copy, PartialEq, Eq, Structural, Debug)]
pub enum EquipmentSlot {
    Melee,
    Shield,
}

/// The item is held by `owner` in `slot`. A back-reference, not ownership.
#[derive(Clone, Copy, PartialEq, Eq, Structural, Debug)]
pub struct Equipped {
    pub owner: usize,
    pub slot: EquipmentSlot,
}

/// The item can be equipped into `slot`.
#[derive(Clone, Copy, PartialEq, Eq, Structural, Debug)]
pub struct Equipable {
    pub slot: EquipmentSlot,
}

/// Flat power bonus granted while equipped.
#[derive(Clone, Copy, PartialEq, Eq, Structural, Debug)]
pub struct MeleePowerBonus {
    pub power: i32,
}

/// Flat defense bonus granted while equipped.
#[derive(Clone, Copy, PartialEq, Eq, Structural, Debug)]
pub struct DefenseBonus {
    pub defense: i32,
}

/// The item is carried, unplaced, by `owner`.
#[derive(Clone, Copy, PartialEq, Eq, Structural, Debug)]
pub struct InBackpack {
    pub owner: usize,
}

/// Marks an in-game item.
#[derive(Clone, Copy, PartialEq, Eq, Structural, Debug)]
pub struct Item {}

/// The item is destroyed once used.
#[derive(Clone, Copy, PartialEq, Eq, Structural, Debug)]
pub struct Consumable {}

/// The item acts at a distance, up to `range` cells.
#[derive(Clone, Copy, PartialEq, Eq, Structural, Debug)]
pub struct Ranged {
    pub range: i32,
}

/// Using the item deals `damage` to each target.
#[derive(Clone, Copy, PartialEq, Eq, Structural, Debug)]
pub struct InflictsDamage {
    pub damage: i32,
}

/// The item affects every occupant within `radius` of the target point.
#[derive(Clone, Copy, PartialEq, Eq, Structural, Debug)]
pub struct AreaOfEffect {
    pub radius: i32,
}

/// Using the item heals its user by `heal_amount`, capped at max health.
#[derive(Clone, Copy, PartialEq, Eq, Structural, Debug)]
pub struct ProvidesHealing {
    pub heal_amount: i32,
}

/// Single-tick intent: attack `target` in melee.
#[derive(Clone, Copy, PartialEq, Eq, Structural, Debug)]
pub struct WantsToMelee {
    pub target: usize,
}

/// Single-tick intent: use `item`, optionally aimed at a map point.
#[derive(Clone, Copy, PartialEq, Eq, Structural, Debug)]
pub struct WantsToUseItem {
    pub item: usize,
    pub target: Option<Point>,
}

/// Single-tick intent: `collected_by` picks `item` up from the map.
#[derive(Clone, Copy, PartialEq, Eq, Structural, Debug)]
pub struct WantsToPickupItem {
    pub collected_by: usize,
    pub item: usize,
}

/// Single-tick intent: drop `item` at the holder's position.
#[derive(Clone, Copy, PartialEq, Eq, Structural, Debug)]
pub struct WantsToDropItem {
    pub item: usize,
}

/// Single-tick intent: move equipped `item` back to the backpack.
#[derive(Clone, Copy, PartialEq, Eq, Structural, Debug)]
pub struct WantsToRemoveItem {
    pub item: usize,
}

} // verus!
