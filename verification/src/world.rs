//! The world: an arena of entity ids with one optional-component table per
//! component kind, all kept at the same length. Entity deletion during a
//! tick is deferred to an explicit maintenance step so that no iteration is
//! invalidated.

use vstd::prelude::*;

use crate::components::{
    AreaOfEffect, BlocksTile, CombatStats, Confusion, Consumable, DefenseBonus, Equipable,
    Equipped, InBackpack, InflictsDamage, Item, MeleePowerBonus, Monster, Name, Player, Position,
    ProvidesHealing, Ranged, Renderable, SufferDamage, Viewshed, WantsToDropItem, WantsToMelee,
    WantsToPickupItem, WantsToRemoveItem, WantsToUseItem,
};

verus! {

/// All game state outside the map and the log: per-component parallel
/// tables keyed by entity id, plus the deferred-deletion queue.
pub struct World {
    pub alive: Vec<bool>,
    pub players: Vec<Option<Player>>,
    pub monsters: Vec<Option<Monster>>,
    pub names: Vec<Option<Name>>,
    pub positions: Vec<Option<Position>>,
    pub renderables: Vec<Option<Renderable>>,
    pub blocks_tile: Vec<Option<BlocksTile>>,
    pub combat_stats: Vec<Option<CombatStats>>,
    pub viewsheds: Vec<Option<Viewshed>>,
    pub suffer_damage: Vec<Option<SufferDamage>>,
    pub confusion: Vec<Option<Confusion>>,
    pub items: Vec<Option<Item>>,
    pub consumables: Vec<Option<Consumable>>,
    pub ranged: Vec<Option<Ranged>>,
    pub inflicts_damage: Vec<Option<InflictsDamage>>,
    pub area_of_effect: Vec<Option<AreaOfEffect>>,
    pub provides_healing: Vec<Option<ProvidesHealing>>,
    pub equipable: Vec<Option<Equipable>>,
    pub equipped: Vec<Option<Equipped>>,
    pub melee_bonus: Vec<Option<MeleePowerBonus>>,
    pub defense_bonus: Vec<Option<DefenseBonus>>,
    pub in_backpack: Vec<Option<InBackpack>>,
    pub wants_melee: Vec<Option<WantsToMelee>>,
    pub wants_use: Vec<Option<WantsToUseItem>>,
    pub wants_pickup: Vec<Option<WantsToPickupItem>>,
    pub wants_drop: Vec<Option<WantsToDropItem>>,
    pub wants_remove: Vec<Option<WantsToRemoveItem>>,
    pub to_delete: Vec<usize>,
}

impl World {
    /// Number of entity slots ever created.
    pub open spec fn n(self) -> int {
        self.alive@.len() as int
    }

    /// Structural invariant: every component table has one slot per entity.
    pub open spec fn wf(self) -> bool {
        &&& self.players@.len() == self.n()
        &&& self.monsters@.len() == self.n()
        &&& self.names@.len() == self.n()
        &&& self.positions@.len() == self.n()
        &&& self.renderables@.len() == self.n()
        &&& self.blocks_tile@.len() == self.n()
        &&& self.combat_stats@.len() == self.n()
        &&& self.viewsheds@.len() == self.n()
        &&& self.suffer_damage@.len() == self.n()
        &&& self.confusion@.len() == self.n()
        &&& self.items@.len() == self.n()
        &&& self.consumables@.len() == self.n()
        &&& self.ranged@.len() == self.n()
        &&& self.inflicts_damage@.len() == self.n()
        &&& self.area_of_effect@.len() == self.n()
        &&& self.provides_healing@.len() == self.n()
        &&& self.equipable@.len() == self.n()
        &&& self.equipped@.len() == self.n()
        &&& self.melee_bonus@.len() == self.n()
        &&& self.defense_bonus@.len() == self.n()
        &&& self.in_backpack@.len() == self.n()
        &&& self.wants_melee@.len() == self.n()
        &&& self.wants_use@.len() == self.n()
        &&& self.wants_pickup@.len() == self.n()
        &&& self.wants_drop@.len() == self.n()
        &&& self.wants_remove@.len() == self.n()
    }

    /// Entity `e` exists and has not been removed.
    pub open spec fn is_alive(self, e: int) -> bool {
        0 <= e < self.n() && self.alive@[e]
    }

    /// The pending-damage list of `e`, empty when none is attached.
    pub open spec fn suffer_seq(self, e: int) -> Seq<i32> {
        if self.suffer_damage@[e] is Some {
            self.suffer_damage@[e]->0.amount@
        } else {
            Seq::<i32>::empty()
        }
    }

    /// True when every component slot of `e` is empty and `e` is not alive.
    pub open spec fn cleared(self, e: int) -> bool {
        &&& !self.alive@[e]
        &&& self.players@[e] is None
        &&& self.monsters@[e] is None
        &&& self.names@[e] is None
        &&& self.positions@[e] is None
        &&& self.renderables@[e] is None
        &&& self.blocks_tile@[e] is None
        &&& self.combat_stats@[e] is None
        &&& self.viewsheds@[e] is None
        &&& self.suffer_damage@[e] is None
        &&& self.confusion@[e] is None
        &&& self.items@[e] is None
        &&& self.consumables@[e] is None
        &&& self.ranged@[e] is None
        &&& self.inflicts_damage@[e] is None
        &&& self.area_of_effect@[e] is None
        &&& self.provides_healing@[e] is None
        &&& self.equipable@[e] is None
        &&& self.equipped@[e] is None
        &&& self.melee_bonus@[e] is None
        &&& self.defense_bonus@[e] is None
        &&& self.in_backpack@[e] is None
        &&& self.wants_melee@[e] is None
        &&& self.wants_use@[e] is None
        &&& self.wants_pickup@[e] is None
        &&& self.wants_drop@[e] is None
        &&& self.wants_remove@[e] is None
    }

    /// Entity `e` occurs among the first `upto` elements of the queue.
    pub open spec fn queued(q: Seq<usize>, upto: int, e: int) -> bool {
        exists|j: int| 0 <= j < upto && q[j] == e
    }

    /// Every component slot of `e` holds the same value in both worlds.
    pub open spec fn entity_unchanged(old: World, new: World, e: int) -> bool {
        &&& new.alive@[e] == old.alive@[e]
        &&& new.players@[e] == old.players@[e]
        &&& new.monsters@[e] == old.monsters@[e]
        &&& new.names@[e] == old.names@[e]
        &&& new.positions@[e] == old.positions@[e]
        &&& new.renderables@[e] == old.renderables@[e]
        &&& new.blocks_tile@[e] == old.blocks_tile@[e]
        &&& new.combat_stats@[e] == old.combat_stats@[e]
        &&& new.viewsheds@[e] == old.viewsheds@[e]
        &&& new.suffer_damage@[e] == old.suffer_damage@[e]
        &&& new.confusion@[e] == old.confusion@[e]
        &&& new.items@[e] == old.items@[e]
        &&& new.consumables@[e] == old.consumables@[e]
        &&& new.ranged@[e] == old.ranged@[e]
        &&& new.inflicts_damage@[e] == old.inflicts_damage@[e]
        &&& new.area_of_effect@[e] == old.area_of_effect@[e]
        &&& new.provides_healing@[e] == old.provides_healing@[e]
        &&& new.equipable@[e] == old.equipable@[e]
        &&& new.equipped@[e] == old.equipped@[e]
        &&& new.melee_bonus@[e] == old.melee_bonus@[e]
        &&& new.defense_bonus@[e] == old.defense_bonus@[e]
        &&& new.in_backpack@[e] == old.in_backpack@[e]
        &&& new.wants_melee@[e] == old.wants_melee@[e]
        &&& new.wants_use@[e] == old.wants_use@[e]
        &&& new.wants_pickup@[e] == old.wants_pickup@[e]
        &&& new.wants_drop@[e] == old.wants_drop@[e]
        &&& new.wants_remove@[e] == old.wants_remove@[e]
    }

    /// An empty world.
    pub fn new() -> (w: World)
        ensures
            w.wf(),
            w.n() == 0,
            w.to_delete@.len() == 0,
    {
        World {
            alive: Vec::new(),
            players: Vec::new(),
            monsters: Vec::new(),
            names: Vec::new(),
            positions: Vec::new(),
            renderables: Vec::new(),
            blocks_tile: Vec::new(),
            combat_stats: Vec::new(),
            viewsheds: Vec::new(),
            suffer_damage: Vec::new(),
            confusion: Vec::new(),
            items: Vec::new(),
            consumables: Vec::new(),
            ranged: Vec::new(),
            inflicts_damage: Vec::new(),
            area_of_effect: Vec::new(),
            provides_healing: Vec::new(),
            equipable: Vec::new(),
            equipped: Vec::new(),
            melee_bonus: Vec::new(),
            defense_bonus: Vec::new(),
            in_backpack: Vec::new(),
            wants_melee: Vec::new(),
            wants_use: Vec::new(),
            wants_pickup: Vec::new(),
            wants_drop: Vec::new(),
            wants_remove: Vec::new(),
            to_delete: Vec::new(),
        }
    }

    /// Create a fresh, alive entity with no components; its id is the
    /// previous slot count.
    pub fn spawn(&mut self) -> (e: usize)
        requires
            old(self).wf(),
            old(self).n() < usize::MAX,
        ensures
            final(self).wf(),
            e == old(self).n(),
            final(self).n() == old(self).n() + 1,
            final(self).alive@ == old(self).alive@.push(true),
            final(self).players@ == old(self).players@.push(None),
            final(self).monsters@ == old(self).monsters@.push(None),
            final(self).names@ == old(self).names@.push(None),
            final(self).positions@ == old(self).positions@.push(None),
            final(self).renderables@ == old(self).renderables@.push(None),
            final(self).blocks_tile@ == old(self).blocks_tile@.push(None),
            final(self).combat_stats@ == old(self).combat_stats@.push(None),
            final(self).viewsheds@ == old(self).viewsheds@.push(None),
            final(self).suffer_damage@ == old(self).suffer_damage@.push(None),
            final(self).confusion@ == old(self).confusion@.push(None),
            final(self).items@ == old(self).items@.push(None),
            final(self).consumables@ == old(self).consumables@.push(None),
            final(self).ranged@ == old(self).ranged@.push(None),
            final(self).inflicts_damage@ == old(self).inflicts_damage@.push(None),
            final(self).area_of_effect@ == old(self).area_of_effect@.push(None),
            final(self).provides_healing@ == old(self).provides_healing@.push(None),
            final(self).equipable@ == old(self).equipable@.push(None),
            final(self).equipped@ == old(self).equipped@.push(None),
            final(self).melee_bonus@ == old(self).melee_bonus@.push(None),
            final(self).defense_bonus@ == old(self).defense_bonus@.push(None),
            final(self).in_backpack@ == old(self).in_backpack@.push(None),
            final(self).wants_melee@ == old(self).wants_melee@.push(None),
            final(self).wants_use@ == old(self).wants_use@.push(None),
            final(self).wants_pickup@ == old(self).wants_pickup@.push(None),
            final(self).wants_drop@ == old(self).wants_drop@.push(None),
            final(self).wants_remove@ == old(self).wants_remove@.push(None),
            final(self).to_delete@ == old(self).to_delete@,
    {
        let e = self.alive.len();
        self.alive.push(true);
        self.players.push(None);
        self.monsters.push(None);
        self.names.push(None);
        self.positions.push(None);
        self.renderables.push(None);
        self.blocks_tile.push(None);
        self.combat_stats.push(None);
        self.viewsheds.push(None);
        self.suffer_damage.push(None);
        self.confusion.push(None);
        self.items.push(None);
        self.consumables.push(None);
        self.ranged.push(None);
        self.inflicts_damage.push(None);
        self.area_of_effect.push(None);
        self.provides_healing.push(None);
        self.equipable.push(None);
        self.equipped.push(None);
        self.melee_bonus.push(None);
        self.defense_bonus.push(None);
        self.in_backpack.push(None);
        self.wants_melee.push(None);
        self.wants_use.push(None);
        self.wants_pickup.push(None);
        self.wants_drop.push(None);
        self.wants_remove.push(None);
        e
    }

    /// Remove entity `e` at once: mark it dead and empty all its component
    /// slots; every other entity is untouched.
    pub fn delete_entity(&mut self, e: usize)
        requires
            old(self).wf(),
            e < old(self).n(),
        ensures
            final(self).wf(),
            final(self).n() == old(self).n(),
            final(self).cleared(e as int),
            forall|o: int|
                0 <= o < old(self).n() && o != e ==> World::entity_unchanged(
                    *old(self),
                    *final(self),
                    o,
                ),
            final(self).to_delete@ == old(self).to_delete@,
    {
        self.alive[e] = false;
        self.players[e] = None;
        self.monsters[e] = None;
        self.names[e] = None;
        self.positions[e] = None;
        self.renderables[e] = None;
        self.blocks_tile[e] = None;
        self.combat_stats[e] = None;
        self.viewsheds[e] = None;
        self.suffer_damage[e] = None;
        self.confusion[e] = None;
        self.items[e] = None;
        self.consumables[e] = None;
        self.ranged[e] = None;
        self.inflicts_damage[e] = None;
        self.area_of_effect[e] = None;
        self.provides_healing[e] = None;
        self.equipable[e] = None;
        self.equipped[e] = None;
        self.melee_bonus[e] = None;
        self.defense_bonus[e] = None;
        self.in_backpack[e] = None;
        self.wants_melee[e] = None;
        self.wants_use[e] = None;
        self.wants_pickup[e] = None;
        self.wants_drop[e] = None;
        self.wants_remove[e] = None;
    }

    /// Queue `e` for removal at the next maintenance step.
    pub fn mark_for_delete(&mut self, e: usize)
        requires
            old(self).wf(),
        ensures
            final(self).wf(),
            final(self).to_delete@ == old(self).to_delete@.push(e),
            final(self).n() == old(self).n(),
            final(self).alive == old(self).alive,
            final(self).players == old(self).players,
            final(self).monsters == old(self).monsters,
            final(self).names == old(self).names,
            final(self).positions == old(self).positions,
            final(self).renderables == old(self).renderables,
            final(self).blocks_tile == old(self).blocks_tile,
            final(self).combat_stats == old(self).combat_stats,
            final(self).viewsheds == old(self).viewsheds,
            final(self).suffer_damage == old(self).suffer_damage,
            final(self).confusion == old(self).confusion,
            final(self).items == old(self).items,
            final(self).consumables == old(self).consumables,
            final(self).ranged == old(self).ranged,
            final(self).inflicts_damage == old(self).inflicts_damage,
            final(self).area_of_effect == old(self).area_of_effect,
            final(self).provides_healing == old(self).provides_healing,
            final(self).equipable == old(self).equipable,
            final(self).equipped == old(self).equipped,
            final(self).melee_bonus == old(self).melee_bonus,
            final(self).defense_bonus == old(self).defense_bonus,
            final(self).in_backpack == old(self).in_backpack,
            final(self).wants_melee == old(self).wants_melee,
            final(self).wants_use == old(self).wants_use,
            final(self).wants_pickup == old(self).wants_pickup,
            final(self).wants_drop == old(self).wants_drop,
            final(self).wants_remove == old(self).wants_remove,
    {
        self.to_delete.push(e);
    }

    /// Maintenance: apply every queued deletion, then empty the queue.
    /// Deletions never run while a system is iterating.
    pub fn maintain(&mut self)
        requires
            old(self).wf(),
            forall|j: int| 0 <= j < old(self).to_delete@.len() ==> old(self).to_delete@[j] < old(self).n(),
        ensures
            final(self).wf(),
            final(self).n() == old(self).n(),
            final(self).to_delete@.len() == 0,
            forall|e: int|
                0 <= e < old(self).n() && World::queued(
                    old(self).to_delete@,
                    old(self).to_delete@.len() as int,
                    e,
                ) ==> final(self).cleared(e),
            forall|e: int|
                0 <= e < old(self).n() && !World::queued(
                    old(self).to_delete@,
                    old(self).to_delete@.len() as int,
                    e,
                ) ==> World::entity_unchanged(*old(self), *final(self), e),
    {
        let ghost orig = *self;
        let mut i: usize = 0;
        let n = self.to_delete.len();
        while i < n
            invariant
                self.wf(),
                self.n() == orig.n(),
                n == self.to_delete@.len(),
                self.to_delete@ == orig.to_delete@,
                i <= n,
                forall|j: int| 0 <= j < n ==> self.to_delete@[j] < self.n(),
                forall|e: int|
                    0 <= e < orig.n() && World::queued(orig.to_delete@, i as int, e)
                        ==> self.cleared(e),
                forall|e: int|
                    0 <= e < orig.n() && !World::queued(orig.to_delete@, i as int, e)
                        ==> World::entity_unchanged(orig, *self, e),
            decreases n - i,
        {
            let ghost pre = *self;
            let e = self.to_delete[i];
            self.delete_entity(e);
            i = i + 1;
            proof {
                assert forall|o: int|
                    0 <= o < orig.n() && World::queued(orig.to_delete@, i as int, o) implies self
                    .cleared(o) by {
                    if o == e as int {
                        assert(self.cleared(e as int));
                    } else {
                        let j = choose|j: int| 0 <= j < i && orig.to_delete@[j] == o;
                        assert(World::queued(orig.to_delete@, i as int - 1, o));
                        assert(pre.cleared(o));
                        assert(World::entity_unchanged(pre, *self, o));
                    }
                }
                assert forall|o: int|
                    0 <= o < orig.n() && !World::queued(orig.to_delete@, i as int, o) implies
                    World::entity_unchanged(orig, *self, o) by {
                    assert(orig.to_delete@[i as int - 1] == e);
                    assert(o != e as int);
                    assert(!World::queued(orig.to_delete@, i as int - 1, o));
                    assert(World::entity_unchanged(orig, pre, o));
                    assert(World::entity_unchanged(pre, *self, o));
                }
            }
        }
        let ghost mid = *self;
        self.to_delete.truncate(0);
        proof {
            assert(orig == *old(self));
            assert forall|e: int|
                0 <= e < orig.n() && World::queued(
                    orig.to_delete@,
                    orig.to_delete@.len() as int,
                    e,
                ) implies self.cleared(e) by {
                assert(World::queued(orig.to_delete@, i as int, e));
                assert(mid.cleared(e));
            }
            assert forall|e: int|
                0 <= e < orig.n() && !World::queued(
                    orig.to_delete@,
                    orig.to_delete@.len() as int,
                    e,
                ) implies World::entity_unchanged(orig, *self, e) by {
                assert(!World::queued(orig.to_delete@, i as int, e));
                assert(World::entity_unchanged(orig, mid, e));
            }
        }
    }
}

} // verus!
