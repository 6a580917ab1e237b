//! The component types. Pure data: all behaviour lives in the system passes.

use vstd::prelude::*;
use crate::geom::Point;
use crate::store::{Entity, Storage, entry};

verus! {

/// A colour as three 8-bit channels; the presentation layer converts it to
/// whatever its renderer wants.
#[derive(Clone, Copy, PartialEq, Eq, Structural, Debug)]
pub struct Color {
    pub r: u8,
    pub g: u8,
    pub b: u8,
}

/// Grid coordinates of an entity. Removed while an item sits in a backpack:
/// backpack membership and map position are mutually exclusive.
#[derive(Clone, Copy, PartialEq, Eq, Structural, Debug)]
pub struct Position {
    pub x: i32,
    pub y: i32,
}

/// Purely presentational: glyph and colours to draw, and a tie-break for
/// stacked entities on one tile (lower render_order draws on top).
#[derive(Clone, Copy, Debug)]
pub struct Renderable {
    pub glyph: u16,
    pub fg: Color,
    pub bg: Color,
    pub render_order: i32,
}

/// An entity's currently computed set of visible tiles plus its range.
/// `dirty` must be set whenever the owner's position or range changes, and
/// is cleared once the set is recomputed.
#[derive(Clone, Debug)]
pub struct Viewshed {
    pub visible_tiles: Vec<Point>,
    pub range: i32,
    pub dirty: bool,
}

/// Tag: the player entity.
#[derive(Clone, Copy, Debug)]
pub struct Player {}

/// A monster, with its memory: the last-known player position, persisting
/// until refreshed by regained line of sight.
#[derive(Clone, Copy, Debug)]
pub struct Monster {
    pub memory: Option<Point>,
}

/// A display name.
#[derive(Clone, Debug)]
pub struct Name {
    pub name: String,
}

/// Tag: this entity makes its tile impassable.
#[derive(Clone, Copy, Debug)]
pub struct BlocksTile {}

/// Combat statistics; the damage system enforces 0 <= hp <= max_hp for every
/// surviving entity (healing clamps to max_hp, death removes hp <= 0).
#[derive(Clone, Copy, PartialEq, Eq, Structural, Debug)]
pub struct CombatStats {
    pub max_hp: i32,
    pub hp: i32,
    pub defense: i32,
    pub power: i32,
}

/// One-shot intent: attack this target. Cleared every tick after the combat
/// system runs, regardless of outcome.
#[derive(Clone, Copy, Debug)]
pub struct WantsToMelee {
    pub target: Entity,
}

/// An accrual buffer of pending damage: multiple sources in one tick append
/// rather than overwrite; fully consumed by the damage system each tick.
#[derive(Clone, Debug)]
pub struct SufferDamage {
    pub amount: Vec<i32>,
}

/// The pending amounts of a damage slot, empty when no accrual exists.
pub open spec fn sd_amounts(v: Option<SufferDamage>) -> Seq<i32> {
    match v {
        Some(sd) => sd.amount@,
        None => Seq::empty(),
    }
}

impl SufferDamage {
    /// Append one damage amount to the victim's accrual buffer, creating the
    /// buffer when absent. A no-op for an identifier the store does not know.
    pub fn new_damage(store: &mut Storage<SufferDamage>, victim: Entity, amount: i32)
        requires
            0 <= amount,
        ensures
            final(store)@.len() == old(store)@.len(),
            victim.id < old(store)@.len() ==> {
                &&& entry(final(store)@, victim.id as int) is Some
                &&& sd_amounts(entry(final(store)@, victim.id as int))
                    == sd_amounts(entry(old(store)@, victim.id as int)).push(amount)
                &&& forall|j: int| 0 <= j < old(store)@.len() && j != victim.id
                    ==> final(store)@[j] == old(store)@[j]
            },
            victim.id >= old(store)@.len() ==> final(store)@ == old(store)@,
    {
        let existing: Option<&SufferDamage> = store.get(victim);
        match existing {
            Some(suffering) => {
                let mut amounts = suffering.amount.clone();
                amounts.push(amount);
                assert(amounts@ =~= sd_amounts(entry(store@, victim.id as int)).push(amount));
                store.insert(victim, SufferDamage { amount: amounts });
            }
            None => {
                let mut amounts: Vec<i32> = Vec::new();
                amounts.push(amount);
                store.insert(victim, SufferDamage { amount: amounts });
                assert(victim.id < old(store)@.len() ==> sd_amounts(
                    entry(final(store)@, victim.id as int),
                ) =~= sd_amounts(entry(old(store)@, victim.id as int)).push(amount));
            }
        }
    }
}

/// Tag: an item that can be picked up, used and dropped.
#[derive(Clone, Copy, Debug)]
pub struct Item {}

/// Using this item heals the target, clamped to its max_hp.
#[derive(Clone, Copy, Debug)]
pub struct ProvidesHealing {
    pub heal_amount: i32,
}

/// Marks an item as held in `owner`'s backpack rather than placed on the map.
#[derive(Clone, Copy, Debug)]
pub struct InBackpack {
    pub owner: Entity,
}

/// One-shot intent: `collected_by` picks `item` up from the map.
#[derive(Clone, Copy, Debug)]
pub struct WantsToPickupItem {
    pub collected_by: Entity,
    pub item: Entity,
}

/// One-shot intent: use `item`; no target point means "target self".
#[derive(Clone, Copy, Debug)]
pub struct WantsToUseItem {
    pub item: Entity,
    pub target: Option<Point>,
}

/// One-shot intent: drop `item` at the dropper's position.
#[derive(Clone, Copy, Debug)]
pub struct WantsToDropItem {
    pub item: Entity,
}

/// Tag: the item is deleted once successfully used.
#[derive(Clone, Copy, Debug)]
pub struct Consumable {}

/// The item is thrown rather than used on self, up to this range.
#[derive(Clone, Copy, Debug)]
pub struct Ranged {
    pub range: i32,
}

/// Using this item appends damage to each target's accrual buffer.
#[derive(Clone, Copy, Debug)]
pub struct InflictsDamage {
    pub damage: i32,
}

/// The item affects a whole blast disc of this radius around the target point.
#[derive(Clone, Copy, Debug)]
pub struct AreaOfEffect {
    pub radius: i32,
}

/// The target is confused for this many turns.
#[derive(Clone, Copy, Debug)]
pub struct Confusion {
    pub turns: i32,
}

/// Where an equippable item is worn.
#[derive(Clone, Copy, PartialEq, Eq, Structural, Debug)]
pub enum EquipmentSlot {
    Melee,
    Shield,
}

/// The item can be equipped into the given slot.
#[derive(Clone, Copy, Debug)]
pub struct Equippable {
    pub slot: EquipmentSlot,
}

/// The item is worn by `owner` in `slot`; at most one item per slot per
/// owner, enforced by the unequip-before-equip logic of the use system.
#[derive(Clone, Copy, Debug)]
pub struct Equipped {
    pub owner: Entity,
    pub slot: EquipmentSlot,
}

/// Offensive bonus granted while equipped.
#[derive(Clone, Copy, Debug)]
pub struct MeleePowerBonus {
    pub power: i32,
}

/// Defensive bonus granted while equipped.
#[derive(Clone, Copy, Debug)]
pub struct DefenseBonus {
    pub defense: i32,
}

} // verus!
