//! Spawning: the player, monsters and items, each an entity with its fixed
//! component set; and the per-room spawn roll that fills a room from the
//! weighted spawn table.

use vstd::prelude::*;
use crate::components::{
    AreaOfEffect, BlocksTile, Color, CombatStats, Confusion, Consumable, DefenseBonus,
    EquipmentSlot, Equippable, InflictsDamage, Item, MeleePowerBonus, Monster, Name, Player,
    Position, ProvidesHealing, Ranged, Renderable, Viewshed,
};
use crate::geom::Rect;
use crate::rng::GameRng;
use crate::store::{Entity, entry};
use crate::world::World;

verus! {

/// The codepage-437 glyph index of a character, a function of the
/// character alone.
pub uninterp spec fn cp437_of(c: char) -> u16;

/// Relies on rltk::to_cp437: maps a unicode character to its codepage-437
/// glyph index, from the character alone.
#[verifier::external_body]
fn to_cp437(c: char) -> (r: u16)
    ensures
        r == cp437_of(c),
{
    rltk::to_cp437(c)
}

/// Old entities keep every component, and the world's map, log, player and
/// player position stand as they were.
pub open spec fn spawn_extends(w0: &World, w1: &World) -> bool {
    &&& w0.n() <= w1.n()
    &&& forall|i: int| 0 <= i < w0.n() ==> World::same_components_at(w0, w1, i)
    &&& forall|i: int| 0 <= i < w0.n() ==> w1.alive@[i] == w0.alive@[i]
    &&& w1.map == w0.map
    &&& w1.log == w0.log
    &&& w1.player_pos == w0.player_pos
}


/// The player archetype: the exact component set the player spawner
/// attaches, and nothing else.
pub open spec fn player_spawn(w: &World, e: int, x: i32, y: i32) -> bool {
    &&& entry(w.positions@, e) == Some(Position { x, y })
    &&& entry(w.renderables@, e) == Some(
        Renderable {
            glyph: cp437_of('@'),
            fg: Color { r: 255, g: 255, b: 0 },
            bg: Color { r: 0, g: 0, b: 0 },
            render_order: 0,
        },
    )
    &&& entry(w.players@, e) is Some
    &&& entry(w.monsters@, e) is None
    &&& (entry(w.viewsheds@, e) matches Some(vs) && vs.visible_tiles@.len() == 0 && vs.range == 8
        && vs.dirty)
    &&& (entry(w.names@, e) matches Some(nm) && nm.name@ == "Player"@)
    &&& entry(w.blockers@, e) is None
    &&& entry(w.combat_stats@, e) == Some(
        CombatStats { max_hp: 30, hp: 30, defense: 2, power: 5 },
    )
    &&& entry(w.wants_melee@, e) is None
    &&& entry(w.suffer_damage@, e) is None
    &&& entry(w.items@, e) is None
    &&& entry(w.healing@, e) is None
    &&& entry(w.backpacks@, e) is None
    &&& entry(w.wants_pickup@, e) is None
    &&& entry(w.wants_use@, e) is None
    &&& entry(w.wants_drop@, e) is None
    &&& entry(w.consumables@, e) is None
    &&& entry(w.ranged@, e) is None
    &&& entry(w.inflicts_damage@, e) is None
    &&& entry(w.aoe@, e) is None
    &&& entry(w.confusion@, e) is None
    &&& entry(w.equippables@, e) is None
    &&& entry(w.equipped@, e) is None
    &&& entry(w.melee_bonuses@, e) is None
    &&& entry(w.defense_bonuses@, e) is None
}

/// The monster archetype: position, red glyph, hostile tag with empty
/// memory, name, fresh dirty viewshed, blocking, full hit points — and
/// nothing else.
pub open spec fn monster_spawn(
    w: &World,
    e: int,
    x: i32,
    y: i32,
    glyph_char: char,
    name: Seq<char>,
    max_hp: i32,
    defense: i32,
    power: i32,
) -> bool {
    &&& entry(w.positions@, e) == Some(Position { x, y })
    &&& entry(w.renderables@, e) == Some(
        Renderable {
            glyph: cp437_of(glyph_char),
            fg: Color { r: 255, g: 0, b: 0 },
            bg: Color { r: 0, g: 0, b: 0 },
            render_order: 1,
        },
    )
    &&& entry(w.players@, e) is None
    &&& entry(w.monsters@, e) == Some(Monster { memory: None })
    &&& (entry(w.viewsheds@, e) matches Some(vs) && vs.visible_tiles@.len() == 0 && vs.range == 8
        && vs.dirty)
    &&& (entry(w.names@, e) matches Some(nm) && nm.name@ == name)
    &&& entry(w.blockers@, e) is Some
    &&& entry(w.combat_stats@, e) == Some(CombatStats { max_hp, hp: max_hp, defense, power })
    &&& entry(w.wants_melee@, e) is None
    &&& entry(w.suffer_damage@, e) is None
    &&& entry(w.items@, e) is None
    &&& entry(w.healing@, e) is None
    &&& entry(w.backpacks@, e) is None
    &&& entry(w.wants_pickup@, e) is None
    &&& entry(w.wants_use@, e) is None
    &&& entry(w.wants_drop@, e) is None
    &&& entry(w.consumables@, e) is None
    &&& entry(w.ranged@, e) is None
    &&& entry(w.inflicts_damage@, e) is None
    &&& entry(w.aoe@, e) is None
    &&& entry(w.confusion@, e) is None
    &&& entry(w.equippables@, e) is None
    &&& entry(w.equipped@, e) is None
    &&& entry(w.melee_bonuses@, e) is None
    &&& entry(w.defense_bonuses@, e) is None
}

/// The item archetype: position, glyph and colours, name, item tag, and
/// exactly the effect components the item kind carries — nothing else.
pub open spec fn item_spawn(
    w: &World,
    e: int,
    x: i32,
    y: i32,
    glyph_char: char,
    fg: Color,
    bg: Color,
    name: Seq<char>,
    consumable: bool,
    throw_range: Option<i32>,
    dmg: Option<i32>,
    radius: Option<i32>,
    confusion_turns: Option<i32>,
    heal: Option<i32>,
    equip_slot: Option<EquipmentSlot>,
    power_bonus: Option<i32>,
    defense_bonus: Option<i32>,
) -> bool {
    &&& entry(w.positions@, e) == Some(Position { x, y })
    &&& entry(w.renderables@, e) == Some(
        Renderable { glyph: cp437_of(glyph_char), fg, bg, render_order: 2 },
    )
    &&& entry(w.players@, e) is None
    &&& entry(w.monsters@, e) is None
    &&& entry(w.viewsheds@, e) is None
    &&& (entry(w.names@, e) matches Some(nm) && nm.name@ == name)
    &&& entry(w.blockers@, e) is None
    &&& entry(w.combat_stats@, e) is None
    &&& entry(w.wants_melee@, e) is None
    &&& entry(w.suffer_damage@, e) is None
    &&& entry(w.items@, e) is Some
    &&& entry(w.healing@, e) == (match heal {
        Some(h) => Some(ProvidesHealing { heal_amount: h }),
        None => None,
    })
    &&& entry(w.backpacks@, e) is None
    &&& entry(w.wants_pickup@, e) is None
    &&& entry(w.wants_use@, e) is None
    &&& entry(w.wants_drop@, e) is None
    &&& entry(w.consumables@, e) is Some == consumable
    &&& entry(w.ranged@, e) == (match throw_range {
        Some(rg) => Some(Ranged { range: rg }),
        None => None,
    })
    &&& entry(w.inflicts_damage@, e) == (match dmg {
        Some(d) => Some(InflictsDamage { damage: d }),
        None => None,
    })
    &&& entry(w.aoe@, e) == (match radius {
        Some(rad) => Some(AreaOfEffect { radius: rad }),
        None => None,
    })
    &&& entry(w.confusion@, e) == (match confusion_turns {
        Some(t) => Some(Confusion { turns: t }),
        None => None,
    })
    &&& entry(w.equippables@, e) == (match equip_slot {
        Some(slot) => Some(Equippable { slot }),
        None => None,
    })
    &&& entry(w.equipped@, e) is None
    &&& entry(w.melee_bonuses@, e) == (match power_bonus {
        Some(pb) => Some(MeleePowerBonus { power: pb }),
        None => None,
    })
    &&& entry(w.defense_bonuses@, e) == (match defense_bonus {
        Some(db) => Some(DefenseBonus { defense: db }),
        None => None,
    })
}

/// The entity is one of the ten archetypes the spawn table names, standing
/// somewhere in the carved interior of `room`.
pub open spec fn spawned_in_room(w: &World, e: int, room: Rect) -> bool {
    exists|x: i32, y: i32|
        #![trigger crate::mapgen::carve_room_cell(room, x as int, y as int)]
        room.x1 < x as int <= room.x2 && room.y1 < y as int <= room.y2 && {
            ||| monster_spawn(w, e, x, y, 'g', "Goblin"@, 16, 1, 4)
            ||| monster_spawn(w, e, x, y, 'o', "Orc"@, 30, 4, 8)
            ||| item_spawn(w, e, x, y, '!', Color { r: 255, g: 0, b: 255 },
                Color { r: 0, g: 0, b: 0 }, "Health Potion"@, true, None, None, None, None,
                Some(8), None, None, None)
            ||| item_spawn(w, e, x, y, ')', Color { r: 255, g: 165, b: 0 },
                Color { r: 0, g: 0, b: 0 }, "Fireball Scroll"@, true, Some(6), Some(20), Some(3),
                None, None, None, None, None)
            ||| item_spawn(w, e, x, y, ')', Color { r: 255, g: 192, b: 203 },
                Color { r: 0, g: 0, b: 0 }, "Confusion Scroll"@, true, Some(6), None, None,
                Some(4), None, None, None, None)
            ||| item_spawn(w, e, x, y, ')', Color { r: 0, g: 255, b: 255 },
                Color { r: 0, g: 0, b: 0 }, "Magic Missile Scroll"@, true, Some(6), Some(8), None,
                None, None, None, None, None)
            ||| item_spawn(w, e, x, y, '/', Color { r: 112, g: 128, b: 144 },
                Color { r: 0, g: 255, b: 255 }, "Dagger"@, false, None, None, None, None, None,
                Some(EquipmentSlot::Melee), Some(2), None)
            ||| item_spawn(w, e, x, y, '(', Color { r: 165, g: 42, b: 42 },
                Color { r: 0, g: 255, b: 255 }, "Shield"@, false, None, None, None, None, None,
                Some(EquipmentSlot::Shield), None, Some(1))
            ||| item_spawn(w, e, x, y, '/', Color { r: 255, g: 215, b: 0 },
                Color { r: 139, g: 69, b: 0 }, "Longsword"@, false, None, None, None, None, None,
                Some(EquipmentSlot::Melee), Some(4), None)
            ||| item_spawn(w, e, x, y, '(', Color { r: 192, g: 192, b: 192 },
                Color { r: 139, g: 69, b: 0 }, "Tower Shield"@, false, None, None, None, None,
                None, Some(EquipmentSlot::Shield), None, Some(3))
        }
}

/// Spawn the player entity at (x, y) and record it as the designated
/// player. Returns its identifier.
pub fn player(world: &mut World, x: i32, y: i32) -> (e: Entity)
    requires
        old(world).wf(),
        old(world).map.in_map(x as int, y as int),
        old(world).n() < 1000000000,
    ensures
        final(world).wf(),
        final(world).n() == old(world).n() + 1,
        e.id == old(world).n(),
        final(world).player == e,
        spawn_extends(old(world), final(world)),
        final(world).positions@[e.id as int] == Some(Position { x, y }),
        final(world).players@[e.id as int] is Some,
        final(world).names@[e.id as int] matches Some(nm) && nm.name@ == "Player"@,
        final(world).viewsheds@[e.id as int] matches Some(vs) && vs.range == 8 && vs.dirty
            && vs.visible_tiles@.len() == 0,
        final(world).combat_stats@[e.id as int] == Some(
            CombatStats { max_hp: 30, hp: 30, defense: 2, power: 5 },
        ),
        player_spawn(final(world), e.id as int, x, y),
    {
        let e = world.spawn();
        world.positions.insert(e, Position { x, y });
        let glyph = to_cp437('@');
        world.renderables.insert(
            e,
            Renderable {
                glyph,
                fg: Color { r: 255, g: 255, b: 0 },
                bg: Color { r: 0, g: 0, b: 0 },
                render_order: 0,
            },
        );
        world.players.insert(e, Player {});
        world.names.insert(e, Name { name: String::from_str("Player") });
        world.viewsheds.insert(
            e,
            Viewshed { visible_tiles: Vec::new(), range: 8, dirty: true },
        );
        world.combat_stats.insert(e, CombatStats { max_hp: 30, hp: 30, defense: 2, power: 5 });
        world.player = e;
        proof {
        assert forall|i: int| 0 <= i < old(world).n() implies World::same_components_at(
            old(world),
            world,
            i,
        ) by {
            assert(entry(world.positions@, i) == entry(old(world).positions@, i));
            assert(entry(world.renderables@, i) == entry(old(world).renderables@, i));
            assert(entry(world.players@, i) == entry(old(world).players@, i));
            assert(entry(world.monsters@, i) == entry(old(world).monsters@, i));
            assert(entry(world.viewsheds@, i) == entry(old(world).viewsheds@, i));
            assert(entry(world.names@, i) == entry(old(world).names@, i));
            assert(entry(world.blockers@, i) == entry(old(world).blockers@, i));
            assert(entry(world.combat_stats@, i) == entry(old(world).combat_stats@, i));
            assert(entry(world.wants_melee@, i) == entry(old(world).wants_melee@, i));
            assert(entry(world.suffer_damage@, i) == entry(old(world).suffer_damage@, i));
            assert(entry(world.items@, i) == entry(old(world).items@, i));
            assert(entry(world.healing@, i) == entry(old(world).healing@, i));
            assert(entry(world.backpacks@, i) == entry(old(world).backpacks@, i));
            assert(entry(world.wants_pickup@, i) == entry(old(world).wants_pickup@, i));
            assert(entry(world.wants_use@, i) == entry(old(world).wants_use@, i));
            assert(entry(world.wants_drop@, i) == entry(old(world).wants_drop@, i));
            assert(entry(world.consumables@, i) == entry(old(world).consumables@, i));
            assert(entry(world.ranged@, i) == entry(old(world).ranged@, i));
            assert(entry(world.inflicts_damage@, i) == entry(old(world).inflicts_damage@, i));
            assert(entry(world.aoe@, i) == entry(old(world).aoe@, i));
            assert(entry(world.confusion@, i) == entry(old(world).confusion@, i));
            assert(entry(world.equippables@, i) == entry(old(world).equippables@, i));
            assert(entry(world.equipped@, i) == entry(old(world).equipped@, i));
            assert(entry(world.melee_bonuses@, i) == entry(old(world).melee_bonuses@, i));
            assert(entry(world.defense_bonuses@, i) == entry(old(world).defense_bonuses@, i));
        }
        assert(forall|i: int| 0 <= i < old(world).n() ==> world.alive@[i]
            == old(world).alive@[i]);
    }
    e
    }

/// Spawn one monster at (x, y): blocking, hostile, with full hit points
/// and an empty memory.
pub fn monster(
    world: &mut World,
    x: i32,
    y: i32,
    glyph_char: char,
    name: &str,
    max_hp: i32,
    defense: i32,
    power: i32,
)
    requires
        old(world).wf(),
        old(world).map.in_map(x as int, y as int),
        old(world).n() < 1000000000,
    ensures
        final(world).wf(),
        final(world).n() == old(world).n() + 1,
        final(world).player == old(world).player,
        spawn_extends(old(world), final(world)),
        monster_spawn(
            final(world),
            old(world).n() as int,
            x,
            y,
            glyph_char,
            name@,
            max_hp,
            defense,
            power,
        ),
{
    let e = world.spawn();
    world.positions.insert(e, Position { x, y });
    let glyph = to_cp437(glyph_char);
    world.renderables.insert(
        e,
        Renderable {
            glyph,
            fg: Color { r: 255, g: 0, b: 0 },
            bg: Color { r: 0, g: 0, b: 0 },
            render_order: 1,
        },
    );
    world.monsters.insert(e, Monster { memory: None });
    world.names.insert(e, Name { name: String::from_str(name) });
    world.viewsheds.insert(e, Viewshed { visible_tiles: Vec::new(), range: 8, dirty: true });
    world.blockers.insert(e, BlocksTile {});
    world.combat_stats.insert(e, CombatStats { max_hp, hp: max_hp, defense, power });
    proof {
        assert forall|i: int| 0 <= i < old(world).n() implies World::same_components_at(
            old(world),
            world,
            i,
        ) by {
            assert(entry(world.positions@, i) == entry(old(world).positions@, i));
            assert(entry(world.renderables@, i) == entry(old(world).renderables@, i));
            assert(entry(world.players@, i) == entry(old(world).players@, i));
            assert(entry(world.monsters@, i) == entry(old(world).monsters@, i));
            assert(entry(world.viewsheds@, i) == entry(old(world).viewsheds@, i));
            assert(entry(world.names@, i) == entry(old(world).names@, i));
            assert(entry(world.blockers@, i) == entry(old(world).blockers@, i));
            assert(entry(world.combat_stats@, i) == entry(old(world).combat_stats@, i));
            assert(entry(world.wants_melee@, i) == entry(old(world).wants_melee@, i));
            assert(entry(world.suffer_damage@, i) == entry(old(world).suffer_damage@, i));
            assert(entry(world.items@, i) == entry(old(world).items@, i));
            assert(entry(world.healing@, i) == entry(old(world).healing@, i));
            assert(entry(world.backpacks@, i) == entry(old(world).backpacks@, i));
            assert(entry(world.wants_pickup@, i) == entry(old(world).wants_pickup@, i));
            assert(entry(world.wants_use@, i) == entry(old(world).wants_use@, i));
            assert(entry(world.wants_drop@, i) == entry(old(world).wants_drop@, i));
            assert(entry(world.consumables@, i) == entry(old(world).consumables@, i));
            assert(entry(world.ranged@, i) == entry(old(world).ranged@, i));
            assert(entry(world.inflicts_damage@, i) == entry(old(world).inflicts_damage@, i));
            assert(entry(world.aoe@, i) == entry(old(world).aoe@, i));
            assert(entry(world.confusion@, i) == entry(old(world).confusion@, i));
            assert(entry(world.equippables@, i) == entry(old(world).equippables@, i));
            assert(entry(world.equipped@, i) == entry(old(world).equipped@, i));
            assert(entry(world.melee_bonuses@, i) == entry(old(world).melee_bonuses@, i));
            assert(entry(world.defense_bonuses@, i) == entry(old(world).defense_bonuses@, i));
        }
        assert(forall|i: int| 0 <= i < old(world).n() ==> world.alive@[i]
            == old(world).alive@[i]);
    }
}

pub fn orc(world: &mut World, x: i32, y: i32)
    requires
        old(world).wf(),
        old(world).map.in_map(x as int, y as int),
        old(world).n() < 1000000000,
    ensures
        final(world).wf(),
        final(world).n() == old(world).n() + 1,
        final(world).player == old(world).player,
        spawn_extends(old(world), final(world)),
        monster_spawn(final(world), old(world).n() as int, x, y, 'o', "Orc"@, 30, 4, 8),
{
    monster(world, x, y, 'o', "Orc", 30, 4, 8);
}

pub fn goblin(world: &mut World, x: i32, y: i32)
    requires
        old(world).wf(),
        old(world).map.in_map(x as int, y as int),
        old(world).n() < 1000000000,
    ensures
        final(world).wf(),
        final(world).n() == old(world).n() + 1,
        final(world).player == old(world).player,
        spawn_extends(old(world), final(world)),
        monster_spawn(final(world), old(world).n() as int, x, y, 'g', "Goblin"@, 16, 1, 4),
{
    monster(world, x, y, 'g', "Goblin", 16, 1, 4);
}

/// A healing consumable restoring 8 hit points.
pub fn health_potion(world: &mut World, x: i32, y: i32)
    requires
        old(world).wf(),
        old(world).map.in_map(x as int, y as int),
        old(world).n() < 1000000000,
    ensures
        final(world).wf(),
        final(world).n() == old(world).n() + 1,
        final(world).player == old(world).player,
        spawn_extends(old(world), final(world)),
        item_spawn(
            final(world),
            old(world).n() as int,
            x,
            y,
            '!',
            Color { r: 255, g: 0, b: 255 },
            Color { r: 0, g: 0, b: 0 },
            "Health Potion"@,
            true,
            None,
            None,
            None,
            None,
            Some(8),
            None,
            None,
            None,
        ),
{
    let e = world.spawn();
    world.positions.insert(e, Position { x, y });
    let glyph = to_cp437('!');
    world.renderables.insert(
        e,
        Renderable {
            glyph,
            fg: Color { r: 255, g: 0, b: 255 },
            bg: Color { r: 0, g: 0, b: 0 },
            render_order: 2,
        },
    );
    world.names.insert(e, Name { name: String::from_str("Health Potion") });
    world.items.insert(e, Item {});
    world.consumables.insert(e, Consumable {});
    world.healing.insert(e, ProvidesHealing { heal_amount: 8 });
    proof {
        assert forall|i: int| 0 <= i < old(world).n() implies World::same_components_at(
            old(world),
            world,
            i,
        ) by {
            assert(entry(world.positions@, i) == entry(old(world).positions@, i));
            assert(entry(world.renderables@, i) == entry(old(world).renderables@, i));
            assert(entry(world.players@, i) == entry(old(world).players@, i));
            assert(entry(world.monsters@, i) == entry(old(world).monsters@, i));
            assert(entry(world.viewsheds@, i) == entry(old(world).viewsheds@, i));
            assert(entry(world.names@, i) == entry(old(world).names@, i));
            assert(entry(world.blockers@, i) == entry(old(world).blockers@, i));
            assert(entry(world.combat_stats@, i) == entry(old(world).combat_stats@, i));
            assert(entry(world.wants_melee@, i) == entry(old(world).wants_melee@, i));
            assert(entry(world.suffer_damage@, i) == entry(old(world).suffer_damage@, i));
            assert(entry(world.items@, i) == entry(old(world).items@, i));
            assert(entry(world.healing@, i) == entry(old(world).healing@, i));
            assert(entry(world.backpacks@, i) == entry(old(world).backpacks@, i));
            assert(entry(world.wants_pickup@, i) == entry(old(world).wants_pickup@, i));
            assert(entry(world.wants_use@, i) == entry(old(world).wants_use@, i));
            assert(entry(world.wants_drop@, i) == entry(old(world).wants_drop@, i));
            assert(entry(world.consumables@, i) == entry(old(world).consumables@, i));
            assert(entry(world.ranged@, i) == entry(old(world).ranged@, i));
            assert(entry(world.inflicts_damage@, i) == entry(old(world).inflicts_damage@, i));
            assert(entry(world.aoe@, i) == entry(old(world).aoe@, i));
            assert(entry(world.confusion@, i) == entry(old(world).confusion@, i));
            assert(entry(world.equippables@, i) == entry(old(world).equippables@, i));
            assert(entry(world.equipped@, i) == entry(old(world).equipped@, i));
            assert(entry(world.melee_bonuses@, i) == entry(old(world).melee_bonuses@, i));
            assert(entry(world.defense_bonuses@, i) == entry(old(world).defense_bonuses@, i));
        }
        assert(forall|i: int| 0 <= i < old(world).n() ==> world.alive@[i]
            == old(world).alive@[i]);
    }
}

/// A single-target ranged damage consumable.
pub fn magic_missile_scroll(world: &mut World, x: i32, y: i32)
    requires
        old(world).wf(),
        old(world).map.in_map(x as int, y as int),
        old(world).n() < 1000000000,
    ensures
        final(world).wf(),
        final(world).n() == old(world).n() + 1,
        final(world).player == old(world).player,
        spawn_extends(old(world), final(world)),
        item_spawn(final(world), old(world).n() as int, x, y, ')', Color { r: 0, g: 255, b: 255 }, Color { r: 0, g: 0, b: 0 }, "Magic Missile Scroll"@, true, Some(6), Some(8), None, None, None, None, None, None),
{
    let e = world.spawn();
    world.positions.insert(e, Position { x, y });
    let glyph = to_cp437(')');
    world.renderables.insert(
        e,
        Renderable {
            glyph,
            fg: Color { r: 0, g: 255, b: 255 },
            bg: Color { r: 0, g: 0, b: 0 },
            render_order: 2,
        },
    );
    world.names.insert(e, Name { name: String::from_str("Magic Missile Scroll") });
    world.items.insert(e, Item {});
    world.consumables.insert(e, Consumable {});
    world.ranged.insert(e, Ranged { range: 6 });
    world.inflicts_damage.insert(e, InflictsDamage { damage: 8 });
    proof {
        assert forall|i: int| 0 <= i < old(world).n() implies World::same_components_at(
            old(world),
            world,
            i,
        ) by {
            assert(entry(world.positions@, i) == entry(old(world).positions@, i));
            assert(entry(world.renderables@, i) == entry(old(world).renderables@, i));
            assert(entry(world.players@, i) == entry(old(world).players@, i));
            assert(entry(world.monsters@, i) == entry(old(world).monsters@, i));
            assert(entry(world.viewsheds@, i) == entry(old(world).viewsheds@, i));
            assert(entry(world.names@, i) == entry(old(world).names@, i));
            assert(entry(world.blockers@, i) == entry(old(world).blockers@, i));
            assert(entry(world.combat_stats@, i) == entry(old(world).combat_stats@, i));
            assert(entry(world.wants_melee@, i) == entry(old(world).wants_melee@, i));
            assert(entry(world.suffer_damage@, i) == entry(old(world).suffer_damage@, i));
            assert(entry(world.items@, i) == entry(old(world).items@, i));
            assert(entry(world.healing@, i) == entry(old(world).healing@, i));
            assert(entry(world.backpacks@, i) == entry(old(world).backpacks@, i));
            assert(entry(world.wants_pickup@, i) == entry(old(world).wants_pickup@, i));
            assert(entry(world.wants_use@, i) == entry(old(world).wants_use@, i));
            assert(entry(world.wants_drop@, i) == entry(old(world).wants_drop@, i));
            assert(entry(world.consumables@, i) == entry(old(world).consumables@, i));
            assert(entry(world.ranged@, i) == entry(old(world).ranged@, i));
            assert(entry(world.inflicts_damage@, i) == entry(old(world).inflicts_damage@, i));
            assert(entry(world.aoe@, i) == entry(old(world).aoe@, i));
            assert(entry(world.confusion@, i) == entry(old(world).confusion@, i));
            assert(entry(world.equippables@, i) == entry(old(world).equippables@, i));
            assert(entry(world.equipped@, i) == entry(old(world).equipped@, i));
            assert(entry(world.melee_bonuses@, i) == entry(old(world).melee_bonuses@, i));
            assert(entry(world.defense_bonuses@, i) == entry(old(world).defense_bonuses@, i));
        }
        assert(forall|i: int| 0 <= i < old(world).n() ==> world.alive@[i]
            == old(world).alive@[i]);
    }
}

/// An area damage consumable with a blast radius of three.
pub fn fireball_scroll(world: &mut World, x: i32, y: i32)
    requires
        old(world).wf(),
        old(world).map.in_map(x as int, y as int),
        old(world).n() < 1000000000,
    ensures
        final(world).wf(),
        final(world).n() == old(world).n() + 1,
        final(world).player == old(world).player,
        spawn_extends(old(world), final(world)),
        item_spawn(final(world), old(world).n() as int, x, y, ')', Color { r: 255, g: 165, b: 0 }, Color { r: 0, g: 0, b: 0 }, "Fireball Scroll"@, true, Some(6), Some(20), Some(3), None, None, None, None, None),
{
    let e = world.spawn();
    world.positions.insert(e, Position { x, y });
    let glyph = to_cp437(')');
    world.renderables.insert(
        e,
        Renderable {
            glyph,
            fg: Color { r: 255, g: 165, b: 0 },
            bg: Color { r: 0, g: 0, b: 0 },
            render_order: 2,
        },
    );
    world.names.insert(e, Name { name: String::from_str("Fireball Scroll") });
    world.items.insert(e, Item {});
    world.consumables.insert(e, Consumable {});
    world.ranged.insert(e, Ranged { range: 6 });
    world.inflicts_damage.insert(e, InflictsDamage { damage: 20 });
    world.aoe.insert(e, AreaOfEffect { radius: 3 });
    proof {
        assert forall|i: int| 0 <= i < old(world).n() implies World::same_components_at(
            old(world),
            world,
            i,
        ) by {
            assert(entry(world.positions@, i) == entry(old(world).positions@, i));
            assert(entry(world.renderables@, i) == entry(old(world).renderables@, i));
            assert(entry(world.players@, i) == entry(old(world).players@, i));
            assert(entry(world.monsters@, i) == entry(old(world).monsters@, i));
            assert(entry(world.viewsheds@, i) == entry(old(world).viewsheds@, i));
            assert(entry(world.names@, i) == entry(old(world).names@, i));
            assert(entry(world.blockers@, i) == entry(old(world).blockers@, i));
            assert(entry(world.combat_stats@, i) == entry(old(world).combat_stats@, i));
            assert(entry(world.wants_melee@, i) == entry(old(world).wants_melee@, i));
            assert(entry(world.suffer_damage@, i) == entry(old(world).suffer_damage@, i));
            assert(entry(world.items@, i) == entry(old(world).items@, i));
            assert(entry(world.healing@, i) == entry(old(world).healing@, i));
            assert(entry(world.backpacks@, i) == entry(old(world).backpacks@, i));
            assert(entry(world.wants_pickup@, i) == entry(old(world).wants_pickup@, i));
            assert(entry(world.wants_use@, i) == entry(old(world).wants_use@, i));
            assert(entry(world.wants_drop@, i) == entry(old(world).wants_drop@, i));
            assert(entry(world.consumables@, i) == entry(old(world).consumables@, i));
            assert(entry(world.ranged@, i) == entry(old(world).ranged@, i));
            assert(entry(world.inflicts_damage@, i) == entry(old(world).inflicts_damage@, i));
            assert(entry(world.aoe@, i) == entry(old(world).aoe@, i));
            assert(entry(world.confusion@, i) == entry(old(world).confusion@, i));
            assert(entry(world.equippables@, i) == entry(old(world).equippables@, i));
            assert(entry(world.equipped@, i) == entry(old(world).equipped@, i));
            assert(entry(world.melee_bonuses@, i) == entry(old(world).melee_bonuses@, i));
            assert(entry(world.defense_bonuses@, i) == entry(old(world).defense_bonuses@, i));
        }
        assert(forall|i: int| 0 <= i < old(world).n() ==> world.alive@[i]
            == old(world).alive@[i]);
    }
}

/// A confusion consumable lasting four turns.
pub fn confusion_scroll(world: &mut World, x: i32, y: i32)
    requires
        old(world).wf(),
        old(world).map.in_map(x as int, y as int),
        old(world).n() < 1000000000,
    ensures
        final(world).wf(),
        final(world).n() == old(world).n() + 1,
        final(world).player == old(world).player,
        spawn_extends(old(world), final(world)),
        item_spawn(final(world), old(world).n() as int, x, y, ')', Color { r: 255, g: 192, b: 203 }, Color { r: 0, g: 0, b: 0 }, "Confusion Scroll"@, true, Some(6), None, None, Some(4), None, None, None, None),
{
    let e = world.spawn();
    world.positions.insert(e, Position { x, y });
    let glyph = to_cp437(')');
    world.renderables.insert(
        e,
        Renderable {
            glyph,
            fg: Color { r: 255, g: 192, b: 203 },
            bg: Color { r: 0, g: 0, b: 0 },
            render_order: 2,
        },
    );
    world.names.insert(e, Name { name: String::from_str("Confusion Scroll") });
    world.items.insert(e, Item {});
    world.consumables.insert(e, Consumable {});
    world.ranged.insert(e, Ranged { range: 6 });
    world.confusion.insert(e, Confusion { turns: 4 });
    proof {
        assert forall|i: int| 0 <= i < old(world).n() implies World::same_components_at(
            old(world),
            world,
            i,
        ) by {
            assert(entry(world.positions@, i) == entry(old(world).positions@, i));
            assert(entry(world.renderables@, i) == entry(old(world).renderables@, i));
            assert(entry(world.players@, i) == entry(old(world).players@, i));
            assert(entry(world.monsters@, i) == entry(old(world).monsters@, i));
            assert(entry(world.viewsheds@, i) == entry(old(world).viewsheds@, i));
            assert(entry(world.names@, i) == entry(old(world).names@, i));
            assert(entry(world.blockers@, i) == entry(old(world).blockers@, i));
            assert(entry(world.combat_stats@, i) == entry(old(world).combat_stats@, i));
            assert(entry(world.wants_melee@, i) == entry(old(world).wants_melee@, i));
            assert(entry(world.suffer_damage@, i) == entry(old(world).suffer_damage@, i));
            assert(entry(world.items@, i) == entry(old(world).items@, i));
            assert(entry(world.healing@, i) == entry(old(world).healing@, i));
            assert(entry(world.backpacks@, i) == entry(old(world).backpacks@, i));
            assert(entry(world.wants_pickup@, i) == entry(old(world).wants_pickup@, i));
            assert(entry(world.wants_use@, i) == entry(old(world).wants_use@, i));
            assert(entry(world.wants_drop@, i) == entry(old(world).wants_drop@, i));
            assert(entry(world.consumables@, i) == entry(old(world).consumables@, i));
            assert(entry(world.ranged@, i) == entry(old(world).ranged@, i));
            assert(entry(world.inflicts_damage@, i) == entry(old(world).inflicts_damage@, i));
            assert(entry(world.aoe@, i) == entry(old(world).aoe@, i));
            assert(entry(world.confusion@, i) == entry(old(world).confusion@, i));
            assert(entry(world.equippables@, i) == entry(old(world).equippables@, i));
            assert(entry(world.equipped@, i) == entry(old(world).equipped@, i));
            assert(entry(world.melee_bonuses@, i) == entry(old(world).melee_bonuses@, i));
            assert(entry(world.defense_bonuses@, i) == entry(old(world).defense_bonuses@, i));
        }
        assert(forall|i: int| 0 <= i < old(world).n() ==> world.alive@[i]
            == old(world).alive@[i]);
    }
}

/// A weak melee weapon.
pub fn dagger(world: &mut World, x: i32, y: i32)
    requires
        old(world).wf(),
        old(world).map.in_map(x as int, y as int),
        old(world).n() < 1000000000,
    ensures
        final(world).wf(),
        final(world).n() == old(world).n() + 1,
        final(world).player == old(world).player,
        spawn_extends(old(world), final(world)),
        item_spawn(final(world), old(world).n() as int, x, y, '/', Color { r: 112, g: 128, b: 144 }, Color { r: 0, g: 255, b: 255 }, "Dagger"@, false, None, None, None, None, None, Some(EquipmentSlot::Melee), Some(2), None),
{
    let e = world.spawn();
    world.positions.insert(e, Position { x, y });
    let glyph = to_cp437('/');
    world.renderables.insert(
        e,
        Renderable {
            glyph,
            fg: Color { r: 112, g: 128, b: 144 },
            bg: Color { r: 0, g: 255, b: 255 },
            render_order: 2,
        },
    );
    world.names.insert(e, Name { name: String::from_str("Dagger") });
    world.items.insert(e, Item {});
    world.equippables.insert(e, Equippable { slot: EquipmentSlot::Melee });
    world.melee_bonuses.insert(e, MeleePowerBonus { power: 2 });
    proof {
        assert forall|i: int| 0 <= i < old(world).n() implies World::same_components_at(
            old(world),
            world,
            i,
        ) by {
            assert(entry(world.positions@, i) == entry(old(world).positions@, i));
            assert(entry(world.renderables@, i) == entry(old(world).renderables@, i));
            assert(entry(world.players@, i) == entry(old(world).players@, i));
            assert(entry(world.monsters@, i) == entry(old(world).monsters@, i));
            assert(entry(world.viewsheds@, i) == entry(old(world).viewsheds@, i));
            assert(entry(world.names@, i) == entry(old(world).names@, i));
            assert(entry(world.blockers@, i) == entry(old(world).blockers@, i));
            assert(entry(world.combat_stats@, i) == entry(old(world).combat_stats@, i));
            assert(entry(world.wants_melee@, i) == entry(old(world).wants_melee@, i));
            assert(entry(world.suffer_damage@, i) == entry(old(world).suffer_damage@, i));
            assert(entry(world.items@, i) == entry(old(world).items@, i));
            assert(entry(world.healing@, i) == entry(old(world).healing@, i));
            assert(entry(world.backpacks@, i) == entry(old(world).backpacks@, i));
            assert(entry(world.wants_pickup@, i) == entry(old(world).wants_pickup@, i));
            assert(entry(world.wants_use@, i) == entry(old(world).wants_use@, i));
            assert(entry(world.wants_drop@, i) == entry(old(world).wants_drop@, i));
            assert(entry(world.consumables@, i) == entry(old(world).consumables@, i));
            assert(entry(world.ranged@, i) == entry(old(world).ranged@, i));
            assert(entry(world.inflicts_damage@, i) == entry(old(world).inflicts_damage@, i));
            assert(entry(world.aoe@, i) == entry(old(world).aoe@, i));
            assert(entry(world.confusion@, i) == entry(old(world).confusion@, i));
            assert(entry(world.equippables@, i) == entry(old(world).equippables@, i));
            assert(entry(world.equipped@, i) == entry(old(world).equipped@, i));
            assert(entry(world.melee_bonuses@, i) == entry(old(world).melee_bonuses@, i));
            assert(entry(world.defense_bonuses@, i) == entry(old(world).defense_bonuses@, i));
        }
        assert(forall|i: int| 0 <= i < old(world).n() ==> world.alive@[i]
            == old(world).alive@[i]);
    }
}

/// A weak shield.
pub fn shield(world: &mut World, x: i32, y: i32)
    requires
        old(world).wf(),
        old(world).map.in_map(x as int, y as int),
        old(world).n() < 1000000000,
    ensures
        final(world).wf(),
        final(world).n() == old(world).n() + 1,
        final(world).player == old(world).player,
        spawn_extends(old(world), final(world)),
        item_spawn(final(world), old(world).n() as int, x, y, '(', Color { r: 165, g: 42, b: 42 }, Color { r: 0, g: 255, b: 255 }, "Shield"@, false, None, None, None, None, None, Some(EquipmentSlot::Shield), None, Some(1)),
{
    let e = world.spawn();
    world.positions.insert(e, Position { x, y });
    let glyph = to_cp437('(');
    world.renderables.insert(
        e,
        Renderable {
            glyph,
            fg: Color { r: 165, g: 42, b: 42 },
            bg: Color { r: 0, g: 255, b: 255 },
            render_order: 2,
        },
    );
    world.names.insert(e, Name { name: String::from_str("Shield") });
    world.items.insert(e, Item {});
    world.equippables.insert(e, Equippable { slot: EquipmentSlot::Shield });
    world.defense_bonuses.insert(e, DefenseBonus { defense: 1 });
    proof {
        assert forall|i: int| 0 <= i < old(world).n() implies World::same_components_at(
            old(world),
            world,
            i,
        ) by {
            assert(entry(world.positions@, i) == entry(old(world).positions@, i));
            assert(entry(world.renderables@, i) == entry(old(world).renderables@, i));
            assert(entry(world.players@, i) == entry(old(world).players@, i));
            assert(entry(world.monsters@, i) == entry(old(world).monsters@, i));
            assert(entry(world.viewsheds@, i) == entry(old(world).viewsheds@, i));
            assert(entry(world.names@, i) == entry(old(world).names@, i));
            assert(entry(world.blockers@, i) == entry(old(world).blockers@, i));
            assert(entry(world.combat_stats@, i) == entry(old(world).combat_stats@, i));
            assert(entry(world.wants_melee@, i) == entry(old(world).wants_melee@, i));
            assert(entry(world.suffer_damage@, i) == entry(old(world).suffer_damage@, i));
            assert(entry(world.items@, i) == entry(old(world).items@, i));
            assert(entry(world.healing@, i) == entry(old(world).healing@, i));
            assert(entry(world.backpacks@, i) == entry(old(world).backpacks@, i));
            assert(entry(world.wants_pickup@, i) == entry(old(world).wants_pickup@, i));
            assert(entry(world.wants_use@, i) == entry(old(world).wants_use@, i));
            assert(entry(world.wants_drop@, i) == entry(old(world).wants_drop@, i));
            assert(entry(world.consumables@, i) == entry(old(world).consumables@, i));
            assert(entry(world.ranged@, i) == entry(old(world).ranged@, i));
            assert(entry(world.inflicts_damage@, i) == entry(old(world).inflicts_damage@, i));
            assert(entry(world.aoe@, i) == entry(old(world).aoe@, i));
            assert(entry(world.confusion@, i) == entry(old(world).confusion@, i));
            assert(entry(world.equippables@, i) == entry(old(world).equippables@, i));
            assert(entry(world.equipped@, i) == entry(old(world).equipped@, i));
            assert(entry(world.melee_bonuses@, i) == entry(old(world).melee_bonuses@, i));
            assert(entry(world.defense_bonuses@, i) == entry(old(world).defense_bonuses@, i));
        }
        assert(forall|i: int| 0 <= i < old(world).n() ==> world.alive@[i]
            == old(world).alive@[i]);
    }
}

/// A strong melee weapon.
pub fn longsword(world: &mut World, x: i32, y: i32)
    requires
        old(world).wf(),
        old(world).map.in_map(x as int, y as int),
        old(world).n() < 1000000000,
    ensures
        final(world).wf(),
        final(world).n() == old(world).n() + 1,
        final(world).player == old(world).player,
        spawn_extends(old(world), final(world)),
        item_spawn(final(world), old(world).n() as int, x, y, '/', Color { r: 255, g: 215, b: 0 }, Color { r: 139, g: 69, b: 0 }, "Longsword"@, false, None, None, None, None, None, Some(EquipmentSlot::Melee), Some(4), None),
{
    let e = world.spawn();
    world.positions.insert(e, Position { x, y });
    let glyph = to_cp437('/');
    world.renderables.insert(
        e,
        Renderable {
            glyph,
            fg: Color { r: 255, g: 215, b: 0 },
            bg: Color { r: 139, g: 69, b: 0 },
            render_order: 2,
        },
    );
    world.names.insert(e, Name { name: String::from_str("Longsword") });
    world.items.insert(e, Item {});
    world.equippables.insert(e, Equippable { slot: EquipmentSlot::Melee });
    world.melee_bonuses.insert(e, MeleePowerBonus { power: 4 });
    proof {
        assert forall|i: int| 0 <= i < old(world).n() implies World::same_components_at(
            old(world),
            world,
            i,
        ) by {
            assert(entry(world.positions@, i) == entry(old(world).positions@, i));
            assert(entry(world.renderables@, i) == entry(old(world).renderables@, i));
            assert(entry(world.players@, i) == entry(old(world).players@, i));
            assert(entry(world.monsters@, i) == entry(old(world).monsters@, i));
            assert(entry(world.viewsheds@, i) == entry(old(world).viewsheds@, i));
            assert(entry(world.names@, i) == entry(old(world).names@, i));
            assert(entry(world.blockers@, i) == entry(old(world).blockers@, i));
            assert(entry(world.combat_stats@, i) == entry(old(world).combat_stats@, i));
            assert(entry(world.wants_melee@, i) == entry(old(world).wants_melee@, i));
            assert(entry(world.suffer_damage@, i) == entry(old(world).suffer_damage@, i));
            assert(entry(world.items@, i) == entry(old(world).items@, i));
            assert(entry(world.healing@, i) == entry(old(world).healing@, i));
            assert(entry(world.backpacks@, i) == entry(old(world).backpacks@, i));
            assert(entry(world.wants_pickup@, i) == entry(old(world).wants_pickup@, i));
            assert(entry(world.wants_use@, i) == entry(old(world).wants_use@, i));
            assert(entry(world.wants_drop@, i) == entry(old(world).wants_drop@, i));
            assert(entry(world.consumables@, i) == entry(old(world).consumables@, i));
            assert(entry(world.ranged@, i) == entry(old(world).ranged@, i));
            assert(entry(world.inflicts_damage@, i) == entry(old(world).inflicts_damage@, i));
            assert(entry(world.aoe@, i) == entry(old(world).aoe@, i));
            assert(entry(world.confusion@, i) == entry(old(world).confusion@, i));
            assert(entry(world.equippables@, i) == entry(old(world).equippables@, i));
            assert(entry(world.equipped@, i) == entry(old(world).equipped@, i));
            assert(entry(world.melee_bonuses@, i) == entry(old(world).melee_bonuses@, i));
            assert(entry(world.defense_bonuses@, i) == entry(old(world).defense_bonuses@, i));
        }
        assert(forall|i: int| 0 <= i < old(world).n() ==> world.alive@[i]
            == old(world).alive@[i]);
    }
}

/// A strong shield.
pub fn tower_shield(world: &mut World, x: i32, y: i32)
    requires
        old(world).wf(),
        old(world).map.in_map(x as int, y as int),
        old(world).n() < 1000000000,
    ensures
        final(world).wf(),
        final(world).n() == old(world).n() + 1,
        final(world).player == old(world).player,
        spawn_extends(old(world), final(world)),
        item_spawn(final(world), old(world).n() as int, x, y, '(', Color { r: 192, g: 192, b: 192 }, Color { r: 139, g: 69, b: 0 }, "Tower Shield"@, false, None, None, None, None, None, Some(EquipmentSlot::Shield), None, Some(3)),
{
    let e = world.spawn();
    world.positions.insert(e, Position { x, y });
    let glyph = to_cp437('(');
    world.renderables.insert(
        e,
        Renderable {
            glyph,
            fg: Color { r: 192, g: 192, b: 192 },
            bg: Color { r: 139, g: 69, b: 0 },
            render_order: 2,
        },
    );
    world.names.insert(e, Name { name: String::from_str("Tower Shield") });
    world.items.insert(e, Item {});
    world.equippables.insert(e, Equippable { slot: EquipmentSlot::Shield });
    world.defense_bonuses.insert(e, DefenseBonus { defense: 3 });
    proof {
        assert forall|i: int| 0 <= i < old(world).n() implies World::same_components_at(
            old(world),
            world,
            i,
        ) by {
            assert(entry(world.positions@, i) == entry(old(world).positions@, i));
            assert(entry(world.renderables@, i) == entry(old(world).renderables@, i));
            assert(entry(world.players@, i) == entry(old(world).players@, i));
            assert(entry(world.monsters@, i) == entry(old(world).monsters@, i));
            assert(entry(world.viewsheds@, i) == entry(old(world).viewsheds@, i));
            assert(entry(world.names@, i) == entry(old(world).names@, i));
            assert(entry(world.blockers@, i) == entry(old(world).blockers@, i));
            assert(entry(world.combat_stats@, i) == entry(old(world).combat_stats@, i));
            assert(entry(world.wants_melee@, i) == entry(old(world).wants_melee@, i));
            assert(entry(world.suffer_damage@, i) == entry(old(world).suffer_damage@, i));
            assert(entry(world.items@, i) == entry(old(world).items@, i));
            assert(entry(world.healing@, i) == entry(old(world).healing@, i));
            assert(entry(world.backpacks@, i) == entry(old(world).backpacks@, i));
            assert(entry(world.wants_pickup@, i) == entry(old(world).wants_pickup@, i));
            assert(entry(world.wants_use@, i) == entry(old(world).wants_use@, i));
            assert(entry(world.wants_drop@, i) == entry(old(world).wants_drop@, i));
            assert(entry(world.consumables@, i) == entry(old(world).consumables@, i));
            assert(entry(world.ranged@, i) == entry(old(world).ranged@, i));
            assert(entry(world.inflicts_damage@, i) == entry(old(world).inflicts_damage@, i));
            assert(entry(world.aoe@, i) == entry(old(world).aoe@, i));
            assert(entry(world.confusion@, i) == entry(old(world).confusion@, i));
            assert(entry(world.equippables@, i) == entry(old(world).equippables@, i));
            assert(entry(world.equipped@, i) == entry(old(world).equipped@, i));
            assert(entry(world.melee_bonuses@, i) == entry(old(world).melee_bonuses@, i));
            assert(entry(world.defense_bonuses@, i) == entry(old(world).defense_bonuses@, i));
        }
        assert(forall|i: int| 0 <= i < old(world).n() ==> world.alive@[i]
            == old(world).alive@[i]);
    }
}

/// The weighted spawn table for a room at the given depth.
pub fn room_table(map_depth: i32) -> (r: crate::random_table::RandomTable)
    requires
        0 <= map_depth <= 1000000,
    ensures
        r.spec_total() == 30 + 5 * map_depth,
        r.spec_entries() == seq![
            ("Goblin"@, 10int),
            ("Orc"@, (1 + map_depth) as int),
            ("Health Potion"@, 7int),
            ("Fireball Scroll"@, (2 + map_depth) as int),
            ("Confusion Scroll"@, (2 + map_depth) as int),
            ("Magic Missile Scroll"@, 4int),
            ("Dagger"@, 3int),
            ("Shield"@, 3int),
            ("Longsword"@, (map_depth - 1) as int),
            ("Tower Shield"@, (map_depth - 1) as int),
        ],
        r.spec_total() < i32::MAX,
        r.spec_entries().len() <= 1000000000,
{
    let r = crate::random_table::RandomTable::new().add("Goblin", 10).add(
        "Orc",
        1 + map_depth,
    ).add("Health Potion", 7).add("Fireball Scroll", 2 + map_depth).add(
        "Confusion Scroll",
        2 + map_depth,
    ).add("Magic Missile Scroll", 4).add("Dagger", 3).add("Shield", 3).add(
        "Longsword",
        map_depth - 1,
    ).add("Tower Shield", map_depth - 1);
    proof {
        assert(r.spec_entries() =~= seq![
            ("Goblin"@, 10int),
            ("Orc"@, (1 + map_depth) as int),
            ("Health Potion"@, 7int),
            ("Fireball Scroll"@, (2 + map_depth) as int),
            ("Confusion Scroll"@, (2 + map_depth) as int),
            ("Magic Missile Scroll"@, 4int),
            ("Dagger"@, 3int),
            ("Shield"@, 3int),
            ("Longsword"@, (map_depth - 1) as int),
            ("Tower Shield"@, (map_depth - 1) as int),
        ]);
    }
    r
}

/// A stored spawn point encodes an interior coordinate of the room.
pub open spec fn point_in_room(room: Rect, idx: int) -> bool {
    exists|x0: i32, y0: i32|
        #![trigger crate::mapgen::cell(80, x0 as int, y0 as int)]
        room.x1 < x0 as int <= room.x2 && room.y1 < y0 as int <= room.y2 && idx
            == crate::mapgen::cell(80, x0 as int, y0 as int)
}

/// Fill a room with monsters and items: sample distinct spawn points inside
/// the room, roll the spawn table for each, and spawn what it names.
pub fn spawn_room(world: &mut World, room: &Rect, map_depth: i32, rng: &mut GameRng)
    requires
        old(world).wf(),
        old(world).map.width == 80,
        old(world).map.height == 50,
        0 <= room.x1,
        room.x1 + 2 <= room.x2 <= 78,
        0 <= room.y1,
        room.y1 + 2 <= room.y2 <= 48,
        0 <= map_depth <= 1000000,
        old(world).n() + 1000004 < 1000000000,
    ensures
        final(world).wf(),
        final(world).player == old(world).player,
        spawn_extends(old(world), final(world)),
        final(world).n() <= old(world).n() + 3 + map_depth,
        forall|e: int| old(world).n() <= e < final(world).n() ==> spawned_in_room(
            final(world),
            e,
            *room,
        ),
        // each spawn took a distinct tile: no two new entities share one
        forall|e1: int, e2: int|
            old(world).n() <= e1 < e2 < final(world).n()
                ==> #[trigger] final(world).positions@[e1]
                != #[trigger] final(world).positions@[e2],
{
    let spawn_table = room_table(map_depth);
    let mut spawn_points: Vec<(usize, String)> = Vec::new();

    let num_spawns = rng.roll_dice(1, 7) + (map_depth - 1) - 3;
    let capped = if num_spawns < 0 {
        0
    } else {
        num_spawns
    };
    let mut i: i32 = 0;
    while i < capped
        invariant
            world.wf(),
            old(world).wf(),
            *world == *old(world),
            0 <= capped <= 3 + map_depth,
            0 <= map_depth <= 1000000,
            0 <= i <= capped,
            spawn_table.spec_total() < i32::MAX,
            spawn_table.spec_entries().len() <= 1000000000,
            0 <= room.x1,
            room.x1 + 2 <= room.x2 <= 78,
            0 <= room.y1,
            room.y1 + 2 <= room.y2 <= 48,
            world.map.width == 80,
            world.map.height == 50,
            0 <= i,
            spawn_points@.len() <= i,
            forall|k: int| 0 <= k < spawn_points@.len()
                ==> (#[trigger] spawn_points@[k]).0 < 4000,
            forall|k: int| 0 <= k < spawn_points@.len() ==> point_in_room(
                *room,
                (#[trigger] spawn_points@[k]).0 as int,
            ),
            forall|k1: int, k2: int|
                0 <= k1 < k2 < spawn_points@.len() ==> (#[trigger] spawn_points@[k1]).0 != (
                #[trigger] spawn_points@[k2]).0,
        decreases capped - i,
    {
        let ghost len0 = spawn_points@.len();
        let mut added = false;
        let mut tries: i32 = 0;
        while !added && tries < 20
            invariant
                world.wf(),
                old(world).wf(),
                *world == *old(world),
                spawn_table.spec_total() < i32::MAX,
                spawn_table.spec_entries().len() <= 1000000000,
                0 <= room.x1,
                room.x1 + 2 <= room.x2 <= 78,
                0 <= room.y1,
                room.y1 + 2 <= room.y2 <= 48,
                world.map.width == 80,
                world.map.height == 50,
                0 <= tries <= 20,
                spawn_points@.len() == len0 + (if added {
                    1int
                } else {
                    0int
                }),
                forall|k: int| 0 <= k < spawn_points@.len()
                    ==> (#[trigger] spawn_points@[k]).0 < 4000,
                forall|k: int| 0 <= k < spawn_points@.len() ==> point_in_room(
                    *room,
                    (#[trigger] spawn_points@[k]).0 as int,
                ),
                forall|k1: int, k2: int|
                    0 <= k1 < k2 < spawn_points@.len() ==> (#[trigger] spawn_points@[k1]).0 != (
                    #[trigger] spawn_points@[k2]).0,
            decreases 20 - tries + (if added {
                0int
            } else {
                1int
            }),
        {
            let dx = rng.roll_dice(1, room.x2 - room.x1);
            let dy = rng.roll_dice(1, room.y2 - room.y1);
            let xi: i32 = room.x1 + dx;
            let yi: i32 = room.y1 + dy;
            let x = xi as usize;
            let y = yi as usize;
            let idx = y * 80 + x;
            let mut seen = false;
            let np = spawn_points.len();
            let mut k: usize = 0;
            while k < np
                invariant
                    np == spawn_points@.len(),
                    k <= np,
                    seen == (exists|j: int|
                        0 <= j < k && (#[trigger] spawn_points@[j]).0 == idx),
                decreases np - k,
            {
                if spawn_points[k].0 == idx {
                    proof {
                        assert(spawn_points@[k as int].0 == idx);
                    }
                    seen = true;
                }
                k += 1;
            }
            if !seen {
                let name = spawn_table.roll(rng);
                proof {
                    assert(idx < 4000);
                    assert(point_in_room(*room, idx as int)) by {
                        assert(room.x1 < xi as int <= room.x2 && room.y1 < yi as int <= room.y2
                            && idx as int == crate::mapgen::cell(80, xi as int, yi as int));
                    }
                }
                spawn_points.push((idx, name));
                added = true;
            } else {
                tries += 1;
            }
        }
        i += 1;
    }

    let np = spawn_points.len();
    let mut s: usize = 0;
    while s < np
        invariant
            world.wf(),
            old(world).wf(),
            world.player == old(world).player,
            spawn_extends(old(world), world),
            np == spawn_points@.len(),
            np <= 3 + map_depth,
            0 <= map_depth <= 1000000,
            s <= np,
            0 <= room.x1,
            room.x1 + 2 <= room.x2 <= 78,
            0 <= room.y1,
            room.y1 + 2 <= room.y2 <= 48,
            world.n() <= old(world).n() + s,
            old(world).n() + 1000004 < 1000000000,
            world.map.width == 80,
            world.map.height == 50,
            forall|k: int| 0 <= k < spawn_points@.len()
                ==> (#[trigger] spawn_points@[k]).0 < 4000,
            forall|k: int| 0 <= k < spawn_points@.len() ==> point_in_room(
                *room,
                (#[trigger] spawn_points@[k]).0 as int,
            ),
            forall|e: int| old(world).n() <= e < world.n() ==> spawned_in_room(world, e, *room),
            forall|k1: int, k2: int|
                0 <= k1 < k2 < spawn_points@.len() ==> (#[trigger] spawn_points@[k1]).0 != (
                #[trigger] spawn_points@[k2]).0,
            forall|e2: int| old(world).n() <= e2 < world.n() ==> exists|kk: int|
                0 <= kk < s && ((#[trigger] world.positions@[e2]) matches Some(p)
                    && crate::mapgen::cell(80, p.x as int, p.y as int) == (
                #[trigger] spawn_points@[kk]).0 as int),
            forall|e1: int, e2: int|
                old(world).n() <= e1 < e2 < world.n() ==> #[trigger] world.positions@[e1] != (
                #[trigger] world.positions@[e2]),
        decreases np - s,
    {
        let ghost wmid = *world;
        let idx = spawn_points[s].0;
        let x = (idx % 80) as i32;
        let y = (idx / 80) as i32;
        proof {
            assert(0 <= x < 80 && 0 <= y < 50) by (nonlinear_arith)
                requires
                    idx < 4000,
                    x == (idx % 80) as i32,
                    y == (idx / 80) as i32,
            ;
            let (x0, y0) = choose|x0: i32, y0: i32|
                #![trigger crate::mapgen::cell(80, x0 as int, y0 as int)]
                room.x1 < x0 as int <= room.x2 && room.y1 < y0 as int <= room.y2 && idx as int
                    == crate::mapgen::cell(80, x0 as int, y0 as int);
            assert(x as int == x0 as int && y as int == y0 as int) by (nonlinear_arith)
                requires
                    idx as int == (y0 as int) * 80 + (x0 as int),
                    0 <= (x0 as int) < 80,
                    0 <= (y0 as int),
                    x as int == (idx as int) % 80,
                    y as int == (idx as int) / 80,
                    idx < 4000,
            ;
            assert(room.x1 < x as int <= room.x2 && room.y1 < y as int <= room.y2);
        }
        let name = spawn_points[s].1.clone();
        if name == String::from_str("Goblin") {
            goblin(world, x, y);
        } else if name == String::from_str("Orc") {
            orc(world, x, y);
        } else if name == String::from_str("Health Potion") {
            health_potion(world, x, y);
        } else if name == String::from_str("Fireball Scroll") {
            fireball_scroll(world, x, y);
        } else if name == String::from_str("Confusion Scroll") {
            confusion_scroll(world, x, y);
        } else if name == String::from_str("Magic Missile Scroll") {
            magic_missile_scroll(world, x, y);
        } else if name == String::from_str("Dagger") {
            dagger(world, x, y);
        } else if name == String::from_str("Shield") {
            shield(world, x, y);
        } else if name == String::from_str("Longsword") {
            longsword(world, x, y);
        } else if name == String::from_str("Tower Shield") {
            tower_shield(world, x, y);
        }
        proof {
            lemma_spawn_extends_trans(old(world), &wmid, world);
            assert forall|e: int| old(world).n() <= e < world.n() implies spawned_in_room(
                world,
                e,
                *room,
            ) by {
                if e < wmid.n() {
                    assert(spawned_in_room(&wmid, e, *room));
                    assert(World::same_components_at(&wmid, world, e));
                    lemma_spawned_in_room_stable(&wmid, world, e, *room);
                } else {
                    assert(e == wmid.n());
                    assert(crate::mapgen::carve_room_cell(*room, x as int, y as int));
                }
            }
            assert forall|e2: int| old(world).n() <= e2 < world.n() implies exists|kk: int|
                0 <= kk < s + 1 && ((#[trigger] world.positions@[e2]) matches Some(p)
                    && crate::mapgen::cell(80, p.x as int, p.y as int) == (
                #[trigger] spawn_points@[kk]).0 as int) by {
                if e2 < wmid.n() {
                    assert(World::same_components_at(&wmid, world, e2));
                    let kk = choose|kk: int|
                        0 <= kk < s && ((#[trigger] wmid.positions@[e2]) matches Some(p)
                            && crate::mapgen::cell(80, p.x as int, p.y as int) == (
                        #[trigger] spawn_points@[kk]).0 as int);
                    assert(world.positions@[e2] == wmid.positions@[e2]);
                    assert(0 <= kk < s + 1 && (world.positions@[e2] matches Some(p)
                        && crate::mapgen::cell(80, p.x as int, p.y as int) == spawn_points@[
                        kk].0 as int));
                } else {
                    assert(e2 == wmid.n());
                    assert(world.positions@[e2] == Some(Position { x, y }));
                    assert(crate::mapgen::cell(80, x as int, y as int) == idx as int);
                    assert(0 <= s < s + 1 && (world.positions@[e2] matches Some(p)
                        && crate::mapgen::cell(80, p.x as int, p.y as int) == spawn_points@[
                        s as int].0 as int));
                }
            }
            assert forall|e1: int, e2: int|
                old(world).n() <= e1 < e2 < world.n() implies #[trigger] world.positions@[e1]
                != (#[trigger] world.positions@[e2]) by {
                if e2 < wmid.n() {
                    assert(World::same_components_at(&wmid, world, e1));
                    assert(World::same_components_at(&wmid, world, e2));
                    assert(world.positions@[e1] == wmid.positions@[e1]);
                    assert(world.positions@[e2] == wmid.positions@[e2]);
                } else {
                    assert(e2 == wmid.n());
                    assert(world.positions@[e2] == Some(Position { x, y }));
                    let kk = choose|kk: int|
                        0 <= kk < s && ((#[trigger] wmid.positions@[e1]) matches Some(p)
                            && crate::mapgen::cell(80, p.x as int, p.y as int) == (
                        #[trigger] spawn_points@[kk]).0 as int);
                    assert(World::same_components_at(&wmid, world, e1));
                    assert(world.positions@[e1] == wmid.positions@[e1]);
                    if world.positions@[e1] == world.positions@[e2] {
                        assert(spawn_points@[kk].0 as int == crate::mapgen::cell(
                            80,
                            x as int,
                            y as int,
                        ));
                        assert(spawn_points@[kk].0 == spawn_points@[s as int].0);
                        assert(false);
                    }
                }
            }
        }
        s += 1;
    }
}


/// An archetype claim about an entity survives any later change that keeps
/// that entity's components.
proof fn lemma_spawned_in_room_stable(a: &World, b: &World, e: int, room: Rect)
    requires
        spawned_in_room(a, e, room),
        World::same_components_at(a, b, e),
    ensures
        spawned_in_room(b, e, room),
{
    let (x, y) = choose|x: i32, y: i32|
        #![auto]
        room.x1 < x as int <= room.x2 && room.y1 < y as int <= room.y2 && {
            ||| monster_spawn(a, e, x, y, 'g', "Goblin"@, 16, 1, 4)
            ||| monster_spawn(a, e, x, y, 'o', "Orc"@, 30, 4, 8)
            ||| item_spawn(a, e, x, y, '!', Color { r: 255, g: 0, b: 255 },
                Color { r: 0, g: 0, b: 0 }, "Health Potion"@, true, None, None, None, None,
                Some(8), None, None, None)
            ||| item_spawn(a, e, x, y, ')', Color { r: 255, g: 165, b: 0 },
                Color { r: 0, g: 0, b: 0 }, "Fireball Scroll"@, true, Some(6), Some(20), Some(3),
                None, None, None, None, None)
            ||| item_spawn(a, e, x, y, ')', Color { r: 255, g: 192, b: 203 },
                Color { r: 0, g: 0, b: 0 }, "Confusion Scroll"@, true, Some(6), None, None,
                Some(4), None, None, None, None)
            ||| item_spawn(a, e, x, y, ')', Color { r: 0, g: 255, b: 255 },
                Color { r: 0, g: 0, b: 0 }, "Magic Missile Scroll"@, true, Some(6), Some(8), None,
                None, None, None, None, None)
            ||| item_spawn(a, e, x, y, '/', Color { r: 112, g: 128, b: 144 },
                Color { r: 0, g: 255, b: 255 }, "Dagger"@, false, None, None, None, None, None,
                Some(EquipmentSlot::Melee), Some(2), None)
            ||| item_spawn(a, e, x, y, '(', Color { r: 165, g: 42, b: 42 },
                Color { r: 0, g: 255, b: 255 }, "Shield"@, false, None, None, None, None, None,
                Some(EquipmentSlot::Shield), None, Some(1))
            ||| item_spawn(a, e, x, y, '/', Color { r: 255, g: 215, b: 0 },
                Color { r: 139, g: 69, b: 0 }, "Longsword"@, false, None, None, None, None, None,
                Some(EquipmentSlot::Melee), Some(4), None)
            ||| item_spawn(a, e, x, y, '(', Color { r: 192, g: 192, b: 192 },
                Color { r: 139, g: 69, b: 0 }, "Tower Shield"@, false, None, None, None, None,
                None, Some(EquipmentSlot::Shield), None, Some(3))
        };
    assert(crate::mapgen::carve_room_cell(room, x as int, y as int));
}

/// Extension is transitive.
proof fn lemma_spawn_extends_trans(a: &World, b: &World, c: &World)
    requires
        spawn_extends(a, b),
        spawn_extends(b, c),
    ensures
        spawn_extends(a, c),
{
    assert forall|i: int| 0 <= i < a.n() implies World::same_components_at(a, c, i) by {
        assert(World::same_components_at(a, b, i));
        assert(World::same_components_at(b, c, i));
    }
    assert forall|i: int| 0 <= i < a.n() implies c.alive@[i] == a.alive@[i] by {
        assert(b.alive@[i] == a.alive@[i]);
    }
}

} // verus!
