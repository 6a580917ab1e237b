//! The world: the component store (one storage per component type), the map,
//! the message log, and the shared resources (designated player entity,
//! currently known player location). One value of this type is handed by
//! reference into each system invocation.

use vstd::prelude::*;
use crate::components::{
    AreaOfEffect, BlocksTile, CombatStats, Confusion, Consumable, DefenseBonus, EquipmentSlot,
    Equippable, Equipped, InBackpack, InflictsDamage, Item, MeleePowerBonus, Monster, Name, Player,
    Position, ProvidesHealing, Ranged, Renderable, SufferDamage, Viewshed, WantsToDropItem,
    WantsToMelee,
    WantsToPickupItem, WantsToUseItem,
};
use crate::gamelog::GameLog;
use crate::geom::Point;
use crate::map::GameMap;
use crate::store::{Entity, Storage, entry};

verus! {

pub struct World {
    pub alive: Vec<bool>,
    pub pending_delete: Vec<bool>,
    pub positions: Storage<Position>,
    pub renderables: Storage<Renderable>,
    pub players: Storage<Player>,
    pub monsters: Storage<Monster>,
    pub viewsheds: Storage<Viewshed>,
    pub names: Storage<Name>,
    pub blockers: Storage<BlocksTile>,
    pub combat_stats: Storage<CombatStats>,
    pub wants_melee: Storage<WantsToMelee>,
    pub suffer_damage: Storage<SufferDamage>,
    pub items: Storage<Item>,
    pub healing: Storage<ProvidesHealing>,
    pub backpacks: Storage<InBackpack>,
    pub wants_pickup: Storage<WantsToPickupItem>,
    pub wants_use: Storage<WantsToUseItem>,
    pub wants_drop: Storage<WantsToDropItem>,
    pub consumables: Storage<Consumable>,
    pub ranged: Storage<Ranged>,
    pub inflicts_damage: Storage<InflictsDamage>,
    pub aoe: Storage<AreaOfEffect>,
    pub confusion: Storage<Confusion>,
    pub equippables: Storage<Equippable>,
    pub equipped: Storage<Equipped>,
    pub melee_bonuses: Storage<MeleePowerBonus>,
    pub defense_bonuses: Storage<DefenseBonus>,
    pub map: GameMap,
    pub log: GameLog,
    pub player: Entity,
    pub player_pos: Point,
}

impl World {
    /// The number of entity identifiers ever created.
    pub open spec fn n(&self) -> int {
        self.alive@.len() as int
    }

    /// Every per-entity table has exactly one slot per created entity.
    pub open spec fn lens_ok(&self) -> bool {
        &&& self.pending_delete@.len() == self.n()
        &&& self.positions@.len() == self.n()
        &&& self.renderables@.len() == self.n()
        &&& self.players@.len() == self.n()
        &&& self.monsters@.len() == self.n()
        &&& self.viewsheds@.len() == self.n()
        &&& self.names@.len() == self.n()
        &&& self.blockers@.len() == self.n()
        &&& self.combat_stats@.len() == self.n()
        &&& self.wants_melee@.len() == self.n()
        &&& self.suffer_damage@.len() == self.n()
        &&& self.items@.len() == self.n()
        &&& self.healing@.len() == self.n()
        &&& self.backpacks@.len() == self.n()
        &&& self.wants_pickup@.len() == self.n()
        &&& self.wants_use@.len() == self.n()
        &&& self.wants_drop@.len() == self.n()
        &&& self.consumables@.len() == self.n()
        &&& self.ranged@.len() == self.n()
        &&& self.inflicts_damage@.len() == self.n()
        &&& self.aoe@.len() == self.n()
        &&& self.confusion@.len() == self.n()
        &&& self.equippables@.len() == self.n()
        &&& self.equipped@.len() == self.n()
        &&& self.melee_bonuses@.len() == self.n()
        &&& self.defense_bonuses@.len() == self.n()
    }

    /// Every placed entity stands on the map.
    pub open spec fn positions_in_map(&self) -> bool {
        forall|i: int|
            0 <= i < self.n() ==> match #[trigger] self.positions@[i] {
                Some(p) => self.map.in_map(p.x as int, p.y as int),
                None => true,
            }
    }

    /// No entity's hit points exceed its maximum.
    pub open spec fn stats_ok(&self) -> bool {
        forall|i: int|
            0 <= i < self.n() ==> match #[trigger] self.combat_stats@[i] {
                Some(s) => s.hp <= s.max_hp,
                None => true,
            }
    }

    /// Pending damage amounts are never negative, and neither is the damage
    /// an item inflicts.
    pub open spec fn damage_ok(&self) -> bool {
        &&& forall|i: int|
            0 <= i < self.n() ==> match #[trigger] self.suffer_damage@[i] {
                Some(sd) => forall|j: int| 0 <= j < sd.amount@.len() ==> sd.amount@[j] >= 0,
                None => true,
            }
        &&& forall|i: int|
            0 <= i < self.n() ==> match #[trigger] self.inflicts_damage@[i] {
                Some(d) => d.damage >= 0,
                None => true,
            }
        &&& forall|i: int|
            0 <= i < self.n() ==> match #[trigger] self.aoe@[i] {
                Some(a) => a.radius >= 0,
                None => true,
            }
        &&& forall|i: int|
            0 <= i < self.n() ==> match #[trigger] self.monsters@[i] {
                Some(mo) => match mo.memory {
                    Some(p) => self.map.in_map(p.x as int, p.y as int),
                    None => true,
                },
                None => true,
            }
        &&& forall|i: int|
            0 <= i < self.n() ==> match #[trigger] self.viewsheds@[i] {
                Some(vs) => vs.range >= 0,
                None => true,
            }
    }

    pub open spec fn wf(&self) -> bool {
        &&& self.n() <= 1000000000
        &&& self.lens_ok()
        &&& self.map.wf()
        &&& self.positions_in_map()
        &&& self.stats_ok()
        &&& self.damage_ok()
    }

    /// All component slots of entity `e` are the same in both worlds.
    pub open spec fn same_components_at(a: &World, b: &World, e: int) -> bool {
        &&& entry(a.positions@, e) == entry(b.positions@, e)
        &&& entry(a.renderables@, e) == entry(b.renderables@, e)
        &&& entry(a.players@, e) == entry(b.players@, e)
        &&& entry(a.monsters@, e) == entry(b.monsters@, e)
        &&& entry(a.viewsheds@, e) == entry(b.viewsheds@, e)
        &&& entry(a.names@, e) == entry(b.names@, e)
        &&& entry(a.blockers@, e) == entry(b.blockers@, e)
        &&& entry(a.combat_stats@, e) == entry(b.combat_stats@, e)
        &&& entry(a.wants_melee@, e) == entry(b.wants_melee@, e)
        &&& entry(a.suffer_damage@, e) == entry(b.suffer_damage@, e)
        &&& entry(a.items@, e) == entry(b.items@, e)
        &&& entry(a.healing@, e) == entry(b.healing@, e)
        &&& entry(a.backpacks@, e) == entry(b.backpacks@, e)
        &&& entry(a.wants_pickup@, e) == entry(b.wants_pickup@, e)
        &&& entry(a.wants_use@, e) == entry(b.wants_use@, e)
        &&& entry(a.wants_drop@, e) == entry(b.wants_drop@, e)
        &&& entry(a.consumables@, e) == entry(b.consumables@, e)
        &&& entry(a.ranged@, e) == entry(b.ranged@, e)
        &&& entry(a.inflicts_damage@, e) == entry(b.inflicts_damage@, e)
        &&& entry(a.aoe@, e) == entry(b.aoe@, e)
        &&& entry(a.confusion@, e) == entry(b.confusion@, e)
        &&& entry(a.equippables@, e) == entry(b.equippables@, e)
        &&& entry(a.equipped@, e) == entry(b.equipped@, e)
        &&& entry(a.melee_bonuses@, e) == entry(b.melee_bonuses@, e)
        &&& entry(a.defense_bonuses@, e) == entry(b.defense_bonuses@, e)
    }

    /// Entity `e` carries no components at all.
    pub open spec fn no_components_at(w: &World, e: int) -> bool {
        &&& entry(w.positions@, e) is None
        &&& entry(w.renderables@, e) is None
        &&& entry(w.players@, e) is None
        &&& entry(w.monsters@, e) is None
        &&& entry(w.viewsheds@, e) is None
        &&& entry(w.names@, e) is None
        &&& entry(w.blockers@, e) is None
        &&& entry(w.combat_stats@, e) is None
        &&& entry(w.wants_melee@, e) is None
        &&& entry(w.suffer_damage@, e) is None
        &&& entry(w.items@, e) is None
        &&& entry(w.healing@, e) is None
        &&& entry(w.backpacks@, e) is None
        &&& entry(w.wants_pickup@, e) is None
        &&& entry(w.wants_use@, e) is None
        &&& entry(w.wants_drop@, e) is None
        &&& entry(w.consumables@, e) is None
        &&& entry(w.ranged@, e) is None
        &&& entry(w.inflicts_damage@, e) is None
        &&& entry(w.aoe@, e) is None
        &&& entry(w.confusion@, e) is None
        &&& entry(w.equippables@, e) is None
        &&& entry(w.equipped@, e) is None
        &&& entry(w.melee_bonuses@, e) is None
        &&& entry(w.defense_bonuses@, e) is None
    }

    /// A fresh world over a generated map: no entities yet, an empty log,
    /// and a placeholder player identity until the spawner sets one.
    pub fn new(map: GameMap, player_pos: Point) -> (r: World)
        requires
            map.wf(),
        ensures
            r.wf(),
            r.n() == 0,
            r.map == map,
            r.player_pos == player_pos,
            r.log.entries@.len() == 0,
    {
        World {
            alive: Vec::new(),
            pending_delete: Vec::new(),
            positions: Storage::new(),
            renderables: Storage::new(),
            players: Storage::new(),
            monsters: Storage::new(),
            viewsheds: Storage::new(),
            names: Storage::new(),
            blockers: Storage::new(),
            combat_stats: Storage::new(),
            wants_melee: Storage::new(),
            suffer_damage: Storage::new(),
            items: Storage::new(),
            healing: Storage::new(),
            backpacks: Storage::new(),
            wants_pickup: Storage::new(),
            wants_use: Storage::new(),
            wants_drop: Storage::new(),
            consumables: Storage::new(),
            ranged: Storage::new(),
            inflicts_damage: Storage::new(),
            aoe: Storage::new(),
            confusion: Storage::new(),
            equippables: Storage::new(),
            equipped: Storage::new(),
            melee_bonuses: Storage::new(),
            defense_bonuses: Storage::new(),
            map,
            log: GameLog::new(),
            player: Entity { id: 0 },
            player_pos,
        }
    }

    /// Create one entity, with no components attached. The new identifier is
    /// the next unused one; identifiers are never reused.
    pub fn spawn(&mut self) -> (e: Entity)
        requires
            old(self).wf(),
            old(self).n() < 1000000000,
        ensures
            final(self).wf(),
            e.id == old(self).n(),
            final(self).n() == old(self).n() + 1,
            final(self).alive@ == old(self).alive@.push(true),
            final(self).pending_delete@ == old(self).pending_delete@.push(false),
            final(self).positions@ == old(self).positions@.push(None),
            final(self).renderables@ == old(self).renderables@.push(None),
            final(self).players@ == old(self).players@.push(None),
            final(self).monsters@ == old(self).monsters@.push(None),
            final(self).viewsheds@ == old(self).viewsheds@.push(None),
            final(self).names@ == old(self).names@.push(None),
            final(self).blockers@ == old(self).blockers@.push(None),
            final(self).combat_stats@ == old(self).combat_stats@.push(None),
            final(self).wants_melee@ == old(self).wants_melee@.push(None),
            final(self).suffer_damage@ == old(self).suffer_damage@.push(None),
            final(self).items@ == old(self).items@.push(None),
            final(self).healing@ == old(self).healing@.push(None),
            final(self).backpacks@ == old(self).backpacks@.push(None),
            final(self).wants_pickup@ == old(self).wants_pickup@.push(None),
            final(self).wants_use@ == old(self).wants_use@.push(None),
            final(self).wants_drop@ == old(self).wants_drop@.push(None),
            final(self).consumables@ == old(self).consumables@.push(None),
            final(self).ranged@ == old(self).ranged@.push(None),
            final(self).inflicts_damage@ == old(self).inflicts_damage@.push(None),
            final(self).aoe@ == old(self).aoe@.push(None),
            final(self).confusion@ == old(self).confusion@.push(None),
            final(self).equippables@ == old(self).equippables@.push(None),
            final(self).equipped@ == old(self).equipped@.push(None),
            final(self).melee_bonuses@ == old(self).melee_bonuses@.push(None),
            final(self).defense_bonuses@ == old(self).defense_bonuses@.push(None),
            World::no_components_at(final(self), e.id as int),
            forall|i: int| 0 <= i < old(self).n()
                ==> World::same_components_at(old(self), final(self), i),
            final(self).map == old(self).map,
            final(self).log == old(self).log,
            final(self).player == old(self).player,
            final(self).player_pos == old(self).player_pos,
    {
        let id = self.alive.len();
        self.alive.push(true);
        self.pending_delete.push(false);
        self.positions.grow();
        self.renderables.grow();
        self.players.grow();
        self.monsters.grow();
        self.viewsheds.grow();
        self.names.grow();
        self.blockers.grow();
        self.combat_stats.grow();
        self.wants_melee.grow();
        self.suffer_damage.grow();
        self.items.grow();
        self.healing.grow();
        self.backpacks.grow();
        self.wants_pickup.grow();
        self.wants_use.grow();
        self.wants_drop.grow();
        self.consumables.grow();
        self.ranged.grow();
        self.inflicts_damage.grow();
        self.aoe.grow();
        self.confusion.grow();
        self.equippables.grow();
        self.equipped.grow();
        self.melee_bonuses.grow();
        self.defense_bonuses.grow();
        Entity { id }
    }

    /// Detach every component of `e` and mark it dead: the materialization
    /// of a deletion. A no-op for an unknown identifier.
    pub fn delete_now(&mut self, e: Entity)
        requires
            old(self).wf(),
        ensures
            final(self).wf(),
            final(self).n() == old(self).n(),
            e.id < old(self).n() ==> World::no_components_at(final(self), e.id as int),
            e.id < old(self).n() ==> final(self).alive@ == old(self).alive@.update(
                e.id as int,
                false,
            ),
            e.id >= old(self).n() ==> final(self).alive@ == old(self).alive@,
            e.id < old(self).n() ==> final(self).pending_delete@
                == old(self).pending_delete@.update(e.id as int, false),
            e.id >= old(self).n() ==> final(self).pending_delete@ == old(self).pending_delete@,
            forall|i: int| 0 <= i < old(self).n() && i != e.id
                ==> World::same_components_at(old(self), final(self), i),
            final(self).map == old(self).map,
            final(self).log == old(self).log,
            final(self).player == old(self).player,
            final(self).player_pos == old(self).player_pos,
    {
        if e.id < self.alive.len() {
            self.alive[e.id] = false;
            self.pending_delete[e.id] = false;
        }
        self.positions.remove(e);
        self.renderables.remove(e);
        self.players.remove(e);
        self.monsters.remove(e);
        self.viewsheds.remove(e);
        self.names.remove(e);
        self.blockers.remove(e);
        self.combat_stats.remove(e);
        self.wants_melee.remove(e);
        self.suffer_damage.remove(e);
        self.items.remove(e);
        self.healing.remove(e);
        self.backpacks.remove(e);
        self.wants_pickup.remove(e);
        self.wants_use.remove(e);
        self.wants_drop.remove(e);
        self.consumables.remove(e);
        self.ranged.remove(e);
        self.inflicts_damage.remove(e);
        self.aoe.remove(e);
        self.confusion.remove(e);
        self.equippables.remove(e);
        self.equipped.remove(e);
        self.melee_bonuses.remove(e);
        self.defense_bonuses.remove(e);
    }

    /// Defer the deletion of `e` to the next commit point. A no-op for an
    /// unknown identifier.
    pub fn mark_delete(&mut self, e: Entity)
        requires
            old(self).wf(),
        ensures
            final(self).wf(),
            e.id < old(self).n() ==> final(self).pending_delete@
                == old(self).pending_delete@.update(e.id as int, true),
            e.id >= old(self).n() ==> final(self).pending_delete@ == old(self).pending_delete@,
            final(self).alive@ == old(self).alive@,
            forall|i: int| 0 <= i < old(self).n()
                ==> World::same_components_at(old(self), final(self), i),
            final(self).positions == old(self).positions,
            final(self).renderables == old(self).renderables,
            final(self).players == old(self).players,
            final(self).monsters == old(self).monsters,
            final(self).viewsheds == old(self).viewsheds,
            final(self).names == old(self).names,
            final(self).blockers == old(self).blockers,
            final(self).combat_stats == old(self).combat_stats,
            final(self).wants_melee == old(self).wants_melee,
            final(self).suffer_damage == old(self).suffer_damage,
            final(self).items == old(self).items,
            final(self).healing == old(self).healing,
            final(self).backpacks == old(self).backpacks,
            final(self).wants_pickup == old(self).wants_pickup,
            final(self).wants_use == old(self).wants_use,
            final(self).wants_drop == old(self).wants_drop,
            final(self).consumables == old(self).consumables,
            final(self).ranged == old(self).ranged,
            final(self).inflicts_damage == old(self).inflicts_damage,
            final(self).aoe == old(self).aoe,
            final(self).confusion == old(self).confusion,
            final(self).equippables == old(self).equippables,
            final(self).equipped == old(self).equipped,
            final(self).melee_bonuses == old(self).melee_bonuses,
            final(self).defense_bonuses == old(self).defense_bonuses,
            final(self).map == old(self).map,
            final(self).log == old(self).log,
            final(self).player == old(self).player,
            final(self).player_pos == old(self).player_pos,
    {
        if e.id < self.pending_delete.len() {
            self.pending_delete[e.id] = true;
        }
    }

    /// The commit point: materialize every deferred deletion collected
    /// during the tick, then clear the pending set.
    pub fn maintain(&mut self)
        requires
            old(self).wf(),
        ensures
            final(self).wf(),
            final(self).n() == old(self).n(),
            forall|i: int| 0 <= i < old(self).n() && old(self).pending_delete@[i] ==> {
                &&& World::no_components_at(final(self), i)
                &&& final(self).alive@[i] == false
            },
            forall|i: int| 0 <= i < old(self).n() && !old(self).pending_delete@[i] ==> {
                &&& World::same_components_at(old(self), final(self), i)
                &&& final(self).alive@[i] == old(self).alive@[i]
            },
            forall|i: int| 0 <= i < final(self).n() ==> final(self).pending_delete@[i] == false,
            final(self).map == old(self).map,
            final(self).log == old(self).log,
            final(self).player == old(self).player,
            final(self).player_pos == old(self).player_pos,
    {
        let n = self.alive.len();
        let mut i: usize = 0;
        while i < n
            invariant
                self.wf(),
                n == self.n(),
                n == old(self).n(),
                i <= n,
                forall|k: int| 0 <= k < n ==> #[trigger] self.alive@[k] == (if k < i
                    && old(self).pending_delete@[k] {
                    false
                } else {
                    old(self).alive@[k]
                }),
                forall|k: int| 0 <= k < n ==> #[trigger] self.pending_delete@[k] == (if k < i {
                    false
                } else {
                    old(self).pending_delete@[k]
                }),
                forall|k: int| 0 <= k < n ==> #[trigger] self.positions@[k] == (if k < i
                    && old(self).pending_delete@[k] {
                    None
                } else {
                    old(self).positions@[k]
                }),
                forall|k: int| 0 <= k < n ==> #[trigger] self.renderables@[k] == (if k < i
                    && old(self).pending_delete@[k] {
                    None
                } else {
                    old(self).renderables@[k]
                }),
                forall|k: int| 0 <= k < n ==> #[trigger] self.players@[k] == (if k < i
                    && old(self).pending_delete@[k] {
                    None
                } else {
                    old(self).players@[k]
                }),
                forall|k: int| 0 <= k < n ==> #[trigger] self.monsters@[k] == (if k < i
                    && old(self).pending_delete@[k] {
                    None
                } else {
                    old(self).monsters@[k]
                }),
                forall|k: int| 0 <= k < n ==> #[trigger] self.viewsheds@[k] == (if k < i
                    && old(self).pending_delete@[k] {
                    None
                } else {
                    old(self).viewsheds@[k]
                }),
                forall|k: int| 0 <= k < n ==> #[trigger] self.names@[k] == (if k < i
                    && old(self).pending_delete@[k] {
                    None
                } else {
                    old(self).names@[k]
                }),
                forall|k: int| 0 <= k < n ==> #[trigger] self.blockers@[k] == (if k < i
                    && old(self).pending_delete@[k] {
                    None
                } else {
                    old(self).blockers@[k]
                }),
                forall|k: int| 0 <= k < n ==> #[trigger] self.combat_stats@[k] == (if k < i
                    && old(self).pending_delete@[k] {
                    None
                } else {
                    old(self).combat_stats@[k]
                }),
                forall|k: int| 0 <= k < n ==> #[trigger] self.wants_melee@[k] == (if k < i
                    && old(self).pending_delete@[k] {
                    None
                } else {
                    old(self).wants_melee@[k]
                }),
                forall|k: int| 0 <= k < n ==> #[trigger] self.suffer_damage@[k] == (if k < i
                    && old(self).pending_delete@[k] {
                    None
                } else {
                    old(self).suffer_damage@[k]
                }),
                forall|k: int| 0 <= k < n ==> #[trigger] self.items@[k] == (if k < i
                    && old(self).pending_delete@[k] {
                    None
                } else {
                    old(self).items@[k]
                }),
                forall|k: int| 0 <= k < n ==> #[trigger] self.healing@[k] == (if k < i
                    && old(self).pending_delete@[k] {
                    None
                } else {
                    old(self).healing@[k]
                }),
                forall|k: int| 0 <= k < n ==> #[trigger] self.backpacks@[k] == (if k < i
                    && old(self).pending_delete@[k] {
                    None
                } else {
                    old(self).backpacks@[k]
                }),
                forall|k: int| 0 <= k < n ==> #[trigger] self.wants_pickup@[k] == (if k < i
                    && old(self).pending_delete@[k] {
                    None
                } else {
                    old(self).wants_pickup@[k]
                }),
                forall|k: int| 0 <= k < n ==> #[trigger] self.wants_use@[k] == (if k < i
                    && old(self).pending_delete@[k] {
                    None
                } else {
                    old(self).wants_use@[k]
                }),
                forall|k: int| 0 <= k < n ==> #[trigger] self.wants_drop@[k] == (if k < i
                    && old(self).pending_delete@[k] {
                    None
                } else {
                    old(self).wants_drop@[k]
                }),
                forall|k: int| 0 <= k < n ==> #[trigger] self.consumables@[k] == (if k < i
                    && old(self).pending_delete@[k] {
                    None
                } else {
                    old(self).consumables@[k]
                }),
                forall|k: int| 0 <= k < n ==> #[trigger] self.ranged@[k] == (if k < i
                    && old(self).pending_delete@[k] {
                    None
                } else {
                    old(self).ranged@[k]
                }),
                forall|k: int| 0 <= k < n ==> #[trigger] self.inflicts_damage@[k] == (if k < i
                    && old(self).pending_delete@[k] {
                    None
                } else {
                    old(self).inflicts_damage@[k]
                }),
                forall|k: int| 0 <= k < n ==> #[trigger] self.aoe@[k] == (if k < i
                    && old(self).pending_delete@[k] {
                    None
                } else {
                    old(self).aoe@[k]
                }),
                forall|k: int| 0 <= k < n ==> #[trigger] self.confusion@[k] == (if k < i
                    && old(self).pending_delete@[k] {
                    None
                } else {
                    old(self).confusion@[k]
                }),
                forall|k: int| 0 <= k < n ==> #[trigger] self.equippables@[k] == (if k < i
                    && old(self).pending_delete@[k] {
                    None
                } else {
                    old(self).equippables@[k]
                }),
                forall|k: int| 0 <= k < n ==> #[trigger] self.equipped@[k] == (if k < i
                    && old(self).pending_delete@[k] {
                    None
                } else {
                    old(self).equipped@[k]
                }),
                forall|k: int| 0 <= k < n ==> #[trigger] self.melee_bonuses@[k] == (if k < i
                    && old(self).pending_delete@[k] {
                    None
                } else {
                    old(self).melee_bonuses@[k]
                }),
                forall|k: int| 0 <= k < n ==> #[trigger] self.defense_bonuses@[k] == (if k < i
                    && old(self).pending_delete@[k] {
                    None
                } else {
                    old(self).defense_bonuses@[k]
                }),
                self.map == old(self).map,
                self.log == old(self).log,
                self.player == old(self).player,
                self.player_pos == old(self).player_pos,
            decreases n - i,
        {
            let e = Entity { id: i };
            if self.pending_delete[i] {
                self.alive[i] = false;
                self.pending_delete[i] = false;
                self.positions.remove(e);
                self.renderables.remove(e);
                self.players.remove(e);
                self.monsters.remove(e);
                self.viewsheds.remove(e);
                self.names.remove(e);
                self.blockers.remove(e);
                self.combat_stats.remove(e);
                self.wants_melee.remove(e);
                self.suffer_damage.remove(e);
                self.items.remove(e);
                self.healing.remove(e);
                self.backpacks.remove(e);
                self.wants_pickup.remove(e);
                self.wants_use.remove(e);
                self.wants_drop.remove(e);
                self.consumables.remove(e);
                self.ranged.remove(e);
                self.inflicts_damage.remove(e);
                self.aoe.remove(e);
                self.confusion.remove(e);
                self.equippables.remove(e);
                self.equipped.remove(e);
                self.melee_bonuses.remove(e);
                self.defense_bonuses.remove(e);
            } else {
                self.pending_delete[i] = false;
            }
            i += 1;
        }
    }
}

} // verus!
