//! Core logic of a turn-based dungeon crawler: a world of entities with
//! optional components, a tile map with a spatial index, field-of-view,
//! pathfinding, and the fixed per-tick pipeline of resolvers that turns
//! intents (melee, use item, pick up, drop, unequip) into state changes.

pub mod components;
pub mod damage_system;
pub mod gamelog;
pub mod inventory_system;
pub mod map;
pub mod map_indexing_system;
pub mod melee_combat_system;
pub mod monster_ai_system;
pub mod pathing;
pub mod player;
pub mod random_table;
pub mod rng;
pub mod scheduler;
pub mod spawner;
pub mod strfmt;
pub mod visibility_system;
pub mod world;
