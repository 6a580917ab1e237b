//! Snapshots: the serialized form of the component store, the map, the
//! player's identity and its known position. Dense per-entity tables become
//! sparse (identifier, component) rows; restoring rebuilds tables
//! element-wise equal to the originals, so resuming from a snapshot is
//! indistinguishable from never having saved.

use vstd::prelude::*;
use crate::components::{
    AreaOfEffect, BlocksTile, CombatStats, Confusion, Consumable, DefenseBonus, Equippable,
    Equipped, InBackpack, InflictsDamage, Item, MeleePowerBonus, Monster, Name, Player, Position,
    ProvidesHealing, Ranged, Renderable, SufferDamage, Viewshed, WantsToDropItem, WantsToMelee,
    WantsToPickupItem, WantsToUseItem,
};
use crate::gamelog::GameLog;
use crate::geom::{Point, Rect};
use crate::map::{GameMap, TileType};
use crate::store::{Entity, Storage, entry};
use crate::world::World;

verus! {

/// The sparse rows of a dense table: one (identifier, component) pair per
/// occupied slot, in increasing identifier order.
pub open spec fn rows_of<C>(s: Seq<Option<C>>) -> Seq<(usize, C)>
    decreases s.len(),
{
    if s.len() == 0 {
        Seq::empty()
    } else {
        let pre = rows_of(s.drop_last());
        match s.last() {
            Some(c) => pre.push(((s.len() - 1) as usize, c)),
            None => pre,
        }
    }
}

/// Replaying rows over a base table: each row with an in-range identifier
/// sets its slot.
pub open spec fn apply_rows<C>(base: Seq<Option<C>>, rows: Seq<(usize, C)>) -> Seq<Option<C>>
    decreases rows.len(),
{
    if rows.len() == 0 {
        base
    } else {
        let pre = apply_rows(base, rows.drop_last());
        let row = rows.last();
        if row.0 < pre.len() {
            pre.update(row.0 as int, Some(row.1))
        } else {
            pre
        }
    }
}

/// An all-empty table of the given size.
pub open spec fn none_seq<C>(n: int) -> Seq<Option<C>> {
    Seq::new(n as nat, |i: int| None)
}

proof fn lemma_rows_of_props<C>(s: Seq<Option<C>>)
    requires
        s.len() <= usize::MAX,
    ensures
        forall|k: int| 0 <= k < rows_of(s).len() ==> {
            &&& (#[trigger] rows_of(s)[k]).0 < s.len()
            &&& s[rows_of(s)[k].0 as int] == Some(rows_of(s)[k].1)
        },
        forall|j: int| 0 <= j < s.len() && s[j] is Some ==> exists|k: int|
            0 <= k < rows_of(s).len() && (#[trigger] rows_of(s)[k]).0 == j,
        forall|a: int, b: int| 0 <= a < b < rows_of(s).len() ==> rows_of(s)[a].0 < rows_of(
            s,
        )[b].0,
    decreases s.len(),
{
    if s.len() > 0 {
        lemma_rows_of_props(s.drop_last());
        let pre = rows_of(s.drop_last());
        let cur = rows_of(s);
        match s.last() {
            Some(c) => {
                assert(cur == pre.push(((s.len() - 1) as usize, c)));
            }
            None => {
                assert(cur == pre);
            }
        }
        assert forall|j: int| 0 <= j < s.len() && s[j] is Some implies exists|k: int|
            0 <= k < cur.len() && (#[trigger] cur[k]).0 == j by {
            if j < s.len() - 1 {
                assert(s.drop_last()[j] == s[j]);
                let k = choose|k: int| 0 <= k < pre.len() && (#[trigger] pre[k]).0 == j;
                assert(cur[k].0 == j);
            } else {
                assert(s.last() is Some);
                assert(cur[cur.len() - 1].0 == j);
            }
        }
        assert forall|k: int| 0 <= k < cur.len() implies {
            &&& (#[trigger] cur[k]).0 < s.len()
            &&& s[cur[k].0 as int] == Some(cur[k].1)
        } by {
            if k < pre.len() {
                assert(cur[k] == pre[k]);
                assert(s.drop_last()[pre[k].0 as int] == s[pre[k].0 as int]);
            }
        }
    }
}

proof fn lemma_apply_rows_char<C>(base: Seq<Option<C>>, rows: Seq<(usize, C)>)
    requires
        forall|a: int, b: int| 0 <= a < b < rows.len() ==> rows[a].0 < rows[b].0,
    ensures
        apply_rows(base, rows).len() == base.len(),
        forall|j: int| 0 <= j < base.len() ==> #[trigger] apply_rows(base, rows)[j] == (
        if exists|k: int| 0 <= k < rows.len() && (#[trigger] rows[k]).0 == j {
            Some(rows[choose|k: int| 0 <= k < rows.len() && (#[trigger] rows[k]).0 == j].1)
        } else {
            base[j]
        }),
    decreases rows.len(),
{
    if rows.len() > 0 {
        lemma_apply_rows_char(base, rows.drop_last());
        let pre = apply_rows(base, rows.drop_last());
        let cur = apply_rows(base, rows);
        let row = rows.last();
        assert forall|j: int| 0 <= j < base.len() implies #[trigger] cur[j] == (if exists|k: int|
            0 <= k < rows.len() && (#[trigger] rows[k]).0 == j {
            Some(rows[choose|k: int| 0 <= k < rows.len() && (#[trigger] rows[k]).0 == j].1)
        } else {
            base[j]
        }) by {
            if exists|k: int| 0 <= k < rows.len() && (#[trigger] rows[k]).0 == j {
                let k = choose|k: int| 0 <= k < rows.len() && (#[trigger] rows[k]).0 == j;
                if k == rows.len() - 1 {
                    assert(row.0 == j);
                    assert(!(exists|k2: int|
                        0 <= k2 < rows.drop_last().len() && (#[trigger] rows.drop_last()[k2]).0
                            == j)) by {
                        if exists|k2: int|
                            0 <= k2 < rows.drop_last().len() && (#[trigger] rows.drop_last()[
                            k2]).0 == j {
                            let k2 = choose|k2: int|
                                0 <= k2 < rows.drop_last().len() && (#[trigger] rows.drop_last()[
                                k2]).0 == j;
                            assert(rows[k2].0 < rows[rows.len() - 1].0);
                            assert(false);
                        }
                    }
                    assert(pre[j] == base[j]);
                    assert(cur[j] == Some(row.1));
                } else {
                    assert(rows.drop_last()[k] == rows[k]);
                    assert(rows[k].0 < row.0);
                    assert(cur[j] == pre[j]);
                    assert(exists|k2: int|
                        0 <= k2 < rows.drop_last().len() && (#[trigger] rows.drop_last()[k2]).0
                            == j) by {
                        assert(rows.drop_last()[k].0 == j);
                    }
                    let k3 = choose|k2: int|
                        0 <= k2 < rows.drop_last().len() && (#[trigger] rows.drop_last()[k2]).0
                            == j;
                    assert(rows.drop_last()[k3] == rows[k3]);
                }
            } else {
                assert(!(exists|k2: int|
                    0 <= k2 < rows.drop_last().len() && (#[trigger] rows.drop_last()[k2]).0
                        == j)) by {
                    if exists|k2: int|
                        0 <= k2 < rows.drop_last().len() && (#[trigger] rows.drop_last()[k2]).0
                            == j {
                        let k2 = choose|k2: int|
                            0 <= k2 < rows.drop_last().len() && (#[trigger] rows.drop_last()[
                            k2]).0 == j;
                        assert(rows[k2].0 == j);
                    }
                }
                assert(row.0 != j);
                assert(cur[j] == pre[j]);
            }
        }
    }
}

/// Writing a table out as rows and replaying them over an empty table of
/// the same size rebuilds the table exactly.
pub proof fn lemma_rows_roundtrip<C>(s: Seq<Option<C>>)
    requires
        s.len() <= usize::MAX,
    ensures
        apply_rows(none_seq(s.len() as int), rows_of(s)) == s,
{
    lemma_rows_of_props(s);
    lemma_apply_rows_char(none_seq::<C>(s.len() as int), rows_of(s));
    let result = apply_rows(none_seq::<C>(s.len() as int), rows_of(s));
    assert forall|j: int| 0 <= j < s.len() implies result[j] == s[j] by {
        if exists|k: int| 0 <= k < rows_of(s).len() && (#[trigger] rows_of(s)[k]).0 == j {
            let k = choose|k: int| 0 <= k < rows_of(s).len() && (#[trigger] rows_of(s)[k]).0 == j;
            assert(s[j] == Some(rows_of(s)[k].1));
        } else {
            if s[j] is Some {
                let k = choose|k: int|
                    0 <= k < rows_of(s).len() && (#[trigger] rows_of(s)[k]).0 == j;
                assert(false);
            }
        }
    }
    assert(result =~= s);
}

impl<C: Copy> Storage<C> {
    /// The sparse rows of this table.
    pub fn to_rows(&self) -> (r: Vec<(usize, C)>)
        ensures
            r@ == rows_of(self@),
    {
        let n = self.len();
        let mut r: Vec<(usize, C)> = Vec::new();
        let mut i: usize = 0;
        while i < n
            invariant
                n == self@.len(),
                i <= n,
                r@ == rows_of(self@.subrange(0, i as int)),
            decreases n - i,
        {
            let e = Entity { id: i };
            match self.get(e) {
                Some(c) => {
                    r.push((i, *c));
                }
                None => {}
            }
            proof {
                assert(self@.subrange(0, i + 1).drop_last() =~= self@.subrange(0, i as int));
                assert(self@.subrange(0, i + 1).last() == self@[i as int]);
            }
            i += 1;
        }
        proof {
            assert(self@.subrange(0, n as int) =~= self@);
        }
        r
    }

    /// Rebuild a table of size `n` from sparse rows.
    pub fn from_rows(n: usize, rows: &Vec<(usize, C)>) -> (r: Storage<C>)
        ensures
            r@ == apply_rows(none_seq(n as int), rows@),
    {
        let mut st: Storage<C> = Storage::new();
        let mut i: usize = 0;
        while i < n
            invariant
                i <= n,
                st@.len() == i,
                forall|j: int| 0 <= j < i ==> st@[j] is None,
            decreases n - i,
        {
            st.grow();
            i += 1;
        }
        proof {
            assert(st@ =~= none_seq::<C>(n as int));
        }
        let m = rows.len();
        let mut k: usize = 0;
        while k < m
            invariant
                m == rows@.len(),
                k <= m,
                st@ == apply_rows(none_seq(n as int), rows@.subrange(0, k as int)),
                st@.len() == n,
            decreases m - k,
        {
            let (id, c) = rows[k];
            st.insert(Entity { id }, c);
            proof {
                assert(rows@.subrange(0, k + 1).drop_last() =~= rows@.subrange(0, k as int));
                assert(rows@.subrange(0, k + 1).last() == rows@[k as int]);
            }
            k += 1;
        }
        proof {
            assert(rows@.subrange(0, m as int) =~= rows@);
        }
        st
    }
}


/// A serialized world: sparse component rows, the map's contents, and the
/// shared resources. The log is presentation state and is not part of it.
pub struct Snapshot {
    pub n: usize,
    pub alive: Vec<bool>,
    pub pending_delete: Vec<bool>,
    pub positions_rows: Vec<(usize, Position)>,
    pub renderables_rows: Vec<(usize, Renderable)>,
    pub players_rows: Vec<(usize, Player)>,
    pub monsters_rows: Vec<(usize, Monster)>,
    pub blockers_rows: Vec<(usize, BlocksTile)>,
    pub combat_stats_rows: Vec<(usize, CombatStats)>,
    pub wants_melee_rows: Vec<(usize, WantsToMelee)>,
    pub items_rows: Vec<(usize, Item)>,
    pub healing_rows: Vec<(usize, ProvidesHealing)>,
    pub backpacks_rows: Vec<(usize, InBackpack)>,
    pub wants_pickup_rows: Vec<(usize, WantsToPickupItem)>,
    pub wants_use_rows: Vec<(usize, WantsToUseItem)>,
    pub wants_drop_rows: Vec<(usize, WantsToDropItem)>,
    pub consumables_rows: Vec<(usize, Consumable)>,
    pub ranged_rows: Vec<(usize, Ranged)>,
    pub inflicts_damage_rows: Vec<(usize, InflictsDamage)>,
    pub aoe_rows: Vec<(usize, AreaOfEffect)>,
    pub confusion_rows: Vec<(usize, Confusion)>,
    pub equippables_rows: Vec<(usize, Equippable)>,
    pub equipped_rows: Vec<(usize, Equipped)>,
    pub melee_bonuses_rows: Vec<(usize, MeleePowerBonus)>,
    pub defense_bonuses_rows: Vec<(usize, DefenseBonus)>,
    pub name_rows: Vec<(usize, Name)>,
    pub viewshed_rows: Vec<(usize, Vec<Point>, i32, bool)>,
    pub suffer_rows: Vec<(usize, Vec<i32>)>,
    pub tiles: Vec<TileType>,
    pub rooms: Vec<Rect>,
    pub width: i32,
    pub height: i32,
    pub revealed_tiles: Vec<bool>,
    pub visible_tiles: Vec<bool>,
    pub blocked: Vec<bool>,
    pub tile_content: Vec<Vec<Entity>>,
    pub player: Entity,
    pub player_pos: Point,
}

/// Element-wise equality of two worlds' stores and maps, at the level of
/// views: what a snapshot round trip must preserve.
pub open spec fn worlds_match(a: &World, b: &World) -> bool {
    &&& b.alive@ == a.alive@
    &&& b.pending_delete@ == a.pending_delete@
    &&& b.positions@ == a.positions@
    &&& b.renderables@ == a.renderables@
    &&& b.players@ == a.players@
    &&& b.monsters@ == a.monsters@
    &&& b.blockers@ == a.blockers@
    &&& b.combat_stats@ == a.combat_stats@
    &&& b.wants_melee@ == a.wants_melee@
    &&& b.items@ == a.items@
    &&& b.healing@ == a.healing@
    &&& b.backpacks@ == a.backpacks@
    &&& b.wants_pickup@ == a.wants_pickup@
    &&& b.wants_use@ == a.wants_use@
    &&& b.wants_drop@ == a.wants_drop@
    &&& b.consumables@ == a.consumables@
    &&& b.ranged@ == a.ranged@
    &&& b.inflicts_damage@ == a.inflicts_damage@
    &&& b.aoe@ == a.aoe@
    &&& b.confusion@ == a.confusion@
    &&& b.equippables@ == a.equippables@
    &&& b.equipped@ == a.equipped@
    &&& b.melee_bonuses@ == a.melee_bonuses@
    &&& b.defense_bonuses@ == a.defense_bonuses@
    &&& b.names@ == a.names@
    &&& b.viewsheds@.len() == a.viewsheds@.len()
    &&& forall|j: int| 0 <= j < a.viewsheds@.len() ==> (match (a.viewsheds@[j], #[trigger] b.viewsheds@[j]) {
        (Some(va), Some(vb)) => va.visible_tiles@ == vb.visible_tiles@ && va.range == vb.range
            && va.dirty == vb.dirty,
        (None, None) => true,
        _ => false,
    })
    &&& b.suffer_damage@.len() == a.suffer_damage@.len()
    &&& forall|j: int| 0 <= j < a.suffer_damage@.len() ==> ((#[trigger] b.suffer_damage@[j])
        is Some <==> a.suffer_damage@[j] is Some) && crate::components::sd_amounts(
        b.suffer_damage@[j],
    ) == crate::components::sd_amounts(a.suffer_damage@[j])
    &&& b.map.tiles@ == a.map.tiles@
    &&& b.map.rooms@ == a.map.rooms@
    &&& b.map.width == a.map.width
    &&& b.map.height == a.map.height
    &&& b.map.revealed_tiles@ == a.map.revealed_tiles@
    &&& b.map.visible_tiles@ == a.map.visible_tiles@
    &&& b.map.blocked@ == a.map.blocked@
    &&& b.map.tile_content@.len() == a.map.tile_content@.len()
    &&& forall|j: int| 0 <= j < a.map.tile_content@.len()
        ==> (#[trigger] b.map.tile_content@[j])@ == a.map.tile_content@[j]@
    &&& b.player == a.player
    &&& b.player_pos == a.player_pos
}

/// The name rows of a world: the same sparse shape as `rows_of`, written
/// with an element-wise loop because names hold owned strings.
fn name_rows_of(st: &Storage<Name>) -> (r: Vec<(usize, Name)>)
    ensures
        r@ == rows_of(st@),
{
    let n = st.len();
    let mut r: Vec<(usize, Name)> = Vec::new();
    let mut i: usize = 0;
    while i < n
        invariant
            n == st@.len(),
            i <= n,
            r@ == rows_of(st@.subrange(0, i as int)),
        decreases n - i,
    {
        let e = Entity { id: i };
        match st.get(e) {
            Some(nm) => {
                let copy = Name { name: nm.name.clone() };
                proof {
                    assert(copy == *nm);
                }
                r.push((i, copy));
            }
            None => {}
        }
        proof {
            assert(st@.subrange(0, i + 1).drop_last() =~= st@.subrange(0, i as int));
            assert(st@.subrange(0, i + 1).last() == st@[i as int]);
        }
        i += 1;
    }
    proof {
        assert(st@.subrange(0, n as int) =~= st@);
    }
    r
}

/// Write a world out as a snapshot.
pub fn make_snapshot(world: &World) -> (r: Snapshot)
    requires
        world.wf(),
    ensures
        r.n == world.n(),
        r.alive@ == world.alive@,
        r.pending_delete@ == world.pending_delete@,
        r.positions_rows@ == rows_of(world.positions@),
        r.renderables_rows@ == rows_of(world.renderables@),
        r.players_rows@ == rows_of(world.players@),
        r.monsters_rows@ == rows_of(world.monsters@),
        r.blockers_rows@ == rows_of(world.blockers@),
        r.combat_stats_rows@ == rows_of(world.combat_stats@),
        r.wants_melee_rows@ == rows_of(world.wants_melee@),
        r.items_rows@ == rows_of(world.items@),
        r.healing_rows@ == rows_of(world.healing@),
        r.backpacks_rows@ == rows_of(world.backpacks@),
        r.wants_pickup_rows@ == rows_of(world.wants_pickup@),
        r.wants_use_rows@ == rows_of(world.wants_use@),
        r.wants_drop_rows@ == rows_of(world.wants_drop@),
        r.consumables_rows@ == rows_of(world.consumables@),
        r.ranged_rows@ == rows_of(world.ranged@),
        r.inflicts_damage_rows@ == rows_of(world.inflicts_damage@),
        r.aoe_rows@ == rows_of(world.aoe@),
        r.confusion_rows@ == rows_of(world.confusion@),
        r.equippables_rows@ == rows_of(world.equippables@),
        r.equipped_rows@ == rows_of(world.equipped@),
        r.melee_bonuses_rows@ == rows_of(world.melee_bonuses@),
        r.defense_bonuses_rows@ == rows_of(world.defense_bonuses@),
        r.name_rows@ == rows_of(world.names@),
        viewshed_rows_describe(r.viewshed_rows@, world.viewsheds@),
        suffer_rows_describe(r.suffer_rows@, world.suffer_damage@),
        r.tiles@ == world.map.tiles@,
        r.rooms@ == world.map.rooms@,
        r.width == world.map.width,
        r.height == world.map.height,
        r.revealed_tiles@ == world.map.revealed_tiles@,
        r.visible_tiles@ == world.map.visible_tiles@,
        r.blocked@ == world.map.blocked@,
        r.tile_content@.len() == world.map.tile_content@.len(),
        forall|j: int| 0 <= j < r.tile_content@.len() ==> (#[trigger] r.tile_content@[j])@
            == world.map.tile_content@[j]@,
        r.player == world.player,
        r.player_pos == world.player_pos,
{
    let n = world.alive.len();
    let viewshed_rows = viewshed_rows_of(&world.viewsheds);
    let suffer_rows = suffer_rows_of(&world.suffer_damage);
    let mut tile_content: Vec<Vec<Entity>> = Vec::new();
    let total = world.map.tile_content.len();
    let mut i: usize = 0;
    while i < total
        invariant
            total == world.map.tile_content@.len(),
            i <= total,
            tile_content@.len() == i,
            forall|j: int| 0 <= j < i ==> (#[trigger] tile_content@[j])@
                == world.map.tile_content@[j]@,
        decreases total - i,
    {
        let row = world.map.tile_content[i].clone();
        proof {
            assert(row@ =~= world.map.tile_content@[i as int]@);
        }
        tile_content.push(row);
        i += 1;
    }
    Snapshot {
        n,
        alive: world.alive.clone(),
        pending_delete: world.pending_delete.clone(),
        positions_rows: world.positions.to_rows(),
        renderables_rows: world.renderables.to_rows(),
        players_rows: world.players.to_rows(),
        monsters_rows: world.monsters.to_rows(),
        blockers_rows: world.blockers.to_rows(),
        combat_stats_rows: world.combat_stats.to_rows(),
        wants_melee_rows: world.wants_melee.to_rows(),
        items_rows: world.items.to_rows(),
        healing_rows: world.healing.to_rows(),
        backpacks_rows: world.backpacks.to_rows(),
        wants_pickup_rows: world.wants_pickup.to_rows(),
        wants_use_rows: world.wants_use.to_rows(),
        wants_drop_rows: world.wants_drop.to_rows(),
        consumables_rows: world.consumables.to_rows(),
        ranged_rows: world.ranged.to_rows(),
        inflicts_damage_rows: world.inflicts_damage.to_rows(),
        aoe_rows: world.aoe.to_rows(),
        confusion_rows: world.confusion.to_rows(),
        equippables_rows: world.equippables.to_rows(),
        equipped_rows: world.equipped.to_rows(),
        melee_bonuses_rows: world.melee_bonuses.to_rows(),
        defense_bonuses_rows: world.defense_bonuses.to_rows(),
        name_rows: name_rows_of(&world.names),
        viewshed_rows,
        suffer_rows,
        tiles: world.map.tiles.clone(),
        rooms: world.map.rooms.clone(),
        width: world.map.width,
        height: world.map.height,
        revealed_tiles: world.map.revealed_tiles.clone(),
        visible_tiles: world.map.visible_tiles.clone(),
        blocked: world.map.blocked.clone(),
        tile_content,
        player: world.player,
        player_pos: world.player_pos,
    }
}

/// The viewshed rows describe the table: each row names an occupied slot
/// and carries its field values, every occupied slot has a row, and no two
/// rows name one slot.
pub open spec fn viewshed_rows_describe(
    rows: Seq<(usize, Vec<Point>, i32, bool)>,
    s: Seq<Option<Viewshed>>,
) -> bool {
    &&& forall|k: int| 0 <= k < rows.len() ==> {
        &&& (#[trigger] rows[k]).0 < s.len()
        &&& s[rows[k].0 as int] matches Some(vs) && vs.visible_tiles@ == rows[k].1@ && vs.range
            == rows[k].2 && vs.dirty == rows[k].3
    }
    &&& forall|j: int| 0 <= j < s.len() && s[j] is Some ==> exists|k: int|
        0 <= k < rows.len() && (#[trigger] rows[k]).0 == j
    &&& forall|a: int, b: int| 0 <= a < b < rows.len() ==> rows[a].0 != rows[b].0
}

/// Likewise for the damage accruals.
pub open spec fn suffer_rows_describe(rows: Seq<(usize, Vec<i32>)>, s: Seq<Option<SufferDamage>>)
    -> bool {
    &&& forall|k: int| 0 <= k < rows.len() ==> {
        &&& (#[trigger] rows[k]).0 < s.len()
        &&& s[rows[k].0 as int] matches Some(sd) && sd.amount@ == rows[k].1@
    }
    &&& forall|j: int| 0 <= j < s.len() && s[j] is Some ==> exists|k: int|
        0 <= k < rows.len() && (#[trigger] rows[k]).0 == j
    &&& forall|a: int, b: int| 0 <= a < b < rows.len() ==> rows[a].0 != rows[b].0
}

fn viewshed_rows_of(st: &Storage<Viewshed>) -> (r: Vec<(usize, Vec<Point>, i32, bool)>)
    ensures
        viewshed_rows_describe(r@, st@),
{
    let n = st.len();
    let mut r: Vec<(usize, Vec<Point>, i32, bool)> = Vec::new();
    let mut i: usize = 0;
    while i < n
        invariant
            n == st@.len(),
            i <= n,
            forall|k: int| 0 <= k < r@.len() ==> {
                &&& (#[trigger] r@[k]).0 < i
                &&& st@[r@[k].0 as int] matches Some(vs) && vs.visible_tiles@ == r@[k].1@
                    && vs.range == r@[k].2 && vs.dirty == r@[k].3
            },
            forall|j: int| 0 <= j < i && st@[j] is Some ==> exists|k: int|
                0 <= k < r@.len() && (#[trigger] r@[k]).0 == j,
            forall|a: int, b: int| 0 <= a < b < r@.len() ==> r@[a].0 != r@[b].0,
        decreases n - i,
    {
        let e = Entity { id: i };
        match st.get(e) {
            Some(vs) => {
                let tiles = vs.visible_tiles.clone();
                proof {
                    assert(tiles@ =~= vs.visible_tiles@);
                }
                let ghost rpre = r@;
                r.push((i, tiles, vs.range, vs.dirty));
                proof {
                    assert forall|j: int| 0 <= j < i + 1 && st@[j] is Some implies exists|k: int|
                        0 <= k < r@.len() && (#[trigger] r@[k]).0 == j by {
                        if j < i {
                            let k = choose|k: int|
                                0 <= k < rpre.len() && (#[trigger] rpre[k]).0 == j;
                            assert(r@[k].0 == j);
                        } else {
                            assert(r@[r@.len() - 1].0 == j);
                        }
                    }
                }
            }
            None => {
                proof {
                    assert forall|j: int| 0 <= j < i + 1 && st@[j] is Some implies exists|k: int|
                        0 <= k < r@.len() && (#[trigger] r@[k]).0 == j by {
                        if j < i {
                            let k = choose|k: int| 0 <= k < r@.len() && (#[trigger] r@[k]).0 == j;
                        }
                    }
                }
            }
        }
        i += 1;
    }
    r
}

fn suffer_rows_of(st: &Storage<SufferDamage>) -> (r: Vec<(usize, Vec<i32>)>)
    ensures
        suffer_rows_describe(r@, st@),
{
    let n = st.len();
    let mut r: Vec<(usize, Vec<i32>)> = Vec::new();
    let mut i: usize = 0;
    while i < n
        invariant
            n == st@.len(),
            i <= n,
            forall|k: int| 0 <= k < r@.len() ==> {
                &&& (#[trigger] r@[k]).0 < i
                &&& st@[r@[k].0 as int] matches Some(sd) && sd.amount@ == r@[k].1@
            },
            forall|j: int| 0 <= j < i && st@[j] is Some ==> exists|k: int|
                0 <= k < r@.len() && (#[trigger] r@[k]).0 == j,
            forall|a: int, b: int| 0 <= a < b < r@.len() ==> r@[a].0 != r@[b].0,
        decreases n - i,
    {
        let e = Entity { id: i };
        match st.get(e) {
            Some(sd) => {
                let amounts = sd.amount.clone();
                proof {
                    assert(amounts@ =~= sd.amount@);
                }
                let ghost rpre = r@;
                r.push((i, amounts));
                proof {
                    assert forall|j: int| 0 <= j < i + 1 && st@[j] is Some implies exists|k: int|
                        0 <= k < r@.len() && (#[trigger] r@[k]).0 == j by {
                        if j < i {
                            let k = choose|k: int|
                                0 <= k < rpre.len() && (#[trigger] rpre[k]).0 == j;
                            assert(r@[k].0 == j);
                        } else {
                            assert(r@[r@.len() - 1].0 == j);
                        }
                    }
                }
            }
            None => {
                proof {
                    assert forall|j: int| 0 <= j < i + 1 && st@[j] is Some implies exists|k: int|
                        0 <= k < r@.len() && (#[trigger] r@[k]).0 == j by {
                        if j < i {
                            let k = choose|k: int| 0 <= k < r@.len() && (#[trigger] r@[k]).0 == j;
                        }
                    }
                }
            }
        }
        i += 1;
    }
    r
}

/// Rebuild a viewshed table of size `n` from rows, by per-slot search.
fn viewsheds_from_rows(n: usize, rows: &Vec<(usize, Vec<Point>, i32, bool)>) -> (r: Storage<
    Viewshed,
>)
    ensures
        r@.len() == n,
        forall|j: int| 0 <= j < n ==> match #[trigger] r@[j] {
            Some(vs) => exists|k: int|
                0 <= k < rows@.len() && (#[trigger] rows@[k]).0 == j && vs.visible_tiles@
                    == rows@[k].1@ && vs.range == rows@[k].2 && vs.dirty == rows@[k].3,
            None => !(exists|k: int| 0 <= k < rows@.len() && (#[trigger] rows@[k]).0 == j),
        },
{
    let mut st: Storage<Viewshed> = Storage::new();
    let mut i: usize = 0;
    while i < n
        invariant
            i <= n,
            st@.len() == i,
            forall|j: int| 0 <= j < i ==> match #[trigger] st@[j] {
                Some(vs) => exists|k: int|
                    0 <= k < rows@.len() && (#[trigger] rows@[k]).0 == j && vs.visible_tiles@
                        == rows@[k].1@ && vs.range == rows@[k].2 && vs.dirty == rows@[k].3,
                None => !(exists|k: int| 0 <= k < rows@.len() && (#[trigger] rows@[k]).0 == j),
            },
        decreases n - i,
    {
        st.grow();
        let m = rows.len();
        let mut k: usize = 0;
        let mut found = false;
        while k < m
            invariant
                m == rows@.len(),
                k <= m,
                st@.len() == i + 1,
                i < n,
                forall|j: int| 0 <= j < i ==> match #[trigger] st@[j] {
                    Some(vs) => exists|k2: int|
                        0 <= k2 < rows@.len() && (#[trigger] rows@[k2]).0 == j
                            && vs.visible_tiles@ == rows@[k2].1@ && vs.range == rows@[k2].2
                            && vs.dirty == rows@[k2].3,
                    None => !(exists|k2: int|
                        0 <= k2 < rows@.len() && (#[trigger] rows@[k2]).0 == j),
                },
                found ==> (st@[i as int] matches Some(vs) && exists|k2: int|
                    0 <= k2 < rows@.len() && (#[trigger] rows@[k2]).0 == i as int
                        && vs.visible_tiles@ == rows@[k2].1@ && vs.range == rows@[k2].2
                        && vs.dirty == rows@[k2].3),
                !found ==> st@[i as int] is None && !(exists|k2: int|
                    0 <= k2 < k && (#[trigger] rows@[k2]).0 == i as int),
            decreases m - k,
        {
            if !found && rows[k].0 == i {
                let tiles = rows[k].1.clone();
                proof {
                    assert(tiles@ =~= rows@[k as int].1@);
                }
                st.insert(
                    Entity { id: i },
                    Viewshed { visible_tiles: tiles, range: rows[k].2, dirty: rows[k].3 },
                );
                found = true;
                proof {
                    assert(rows@[k as int].0 == i as int);
                }
            }
            k += 1;
        }
        i += 1;
    }
    st
}

/// Rebuild a damage-accrual table of size `n` from rows, by per-slot
/// search.
fn suffer_from_rows(n: usize, rows: &Vec<(usize, Vec<i32>)>) -> (r: Storage<SufferDamage>)
    ensures
        r@.len() == n,
        forall|j: int| 0 <= j < n ==> match #[trigger] r@[j] {
            Some(sd) => exists|k: int|
                0 <= k < rows@.len() && (#[trigger] rows@[k]).0 == j && sd.amount@
                    == rows@[k].1@,
            None => !(exists|k: int| 0 <= k < rows@.len() && (#[trigger] rows@[k]).0 == j),
        },
{
    let mut st: Storage<SufferDamage> = Storage::new();
    let mut i: usize = 0;
    while i < n
        invariant
            i <= n,
            st@.len() == i,
            forall|j: int| 0 <= j < i ==> match #[trigger] st@[j] {
                Some(sd) => exists|k: int|
                    0 <= k < rows@.len() && (#[trigger] rows@[k]).0 == j && sd.amount@
                        == rows@[k].1@,
                None => !(exists|k: int| 0 <= k < rows@.len() && (#[trigger] rows@[k]).0 == j),
            },
        decreases n - i,
    {
        st.grow();
        let m = rows.len();
        let mut k: usize = 0;
        let mut found = false;
        while k < m
            invariant
                m == rows@.len(),
                k <= m,
                st@.len() == i + 1,
                i < n,
                forall|j: int| 0 <= j < i ==> match #[trigger] st@[j] {
                    Some(sd) => exists|k2: int|
                        0 <= k2 < rows@.len() && (#[trigger] rows@[k2]).0 == j && sd.amount@
                            == rows@[k2].1@,
                    None => !(exists|k2: int|
                        0 <= k2 < rows@.len() && (#[trigger] rows@[k2]).0 == j),
                },
                found ==> (st@[i as int] matches Some(sd) && exists|k2: int|
                    0 <= k2 < rows@.len() && (#[trigger] rows@[k2]).0 == i as int && sd.amount@
                        == rows@[k2].1@),
                !found ==> st@[i as int] is None && !(exists|k2: int|
                    0 <= k2 < k && (#[trigger] rows@[k2]).0 == i as int),
            decreases m - k,
        {
            if !found && rows[k].0 == i {
                let amounts = rows[k].1.clone();
                proof {
                    assert(amounts@ =~= rows@[k as int].1@);
                }
                st.insert(Entity { id: i }, SufferDamage { amount: amounts });
                found = true;
                proof {
                    assert(rows@[k as int].0 == i as int);
                }
            }
            k += 1;
        }
        i += 1;
    }
    st
}

/// Rebuild a name table of size `n` from rows; names hold owned strings,
/// so the rows are copied element-wise.
fn names_from_rows(n: usize, rows: &Vec<(usize, Name)>) -> (r: Storage<Name>)
    ensures
        r@ == apply_rows(none_seq(n as int), rows@),
{
    let mut st: Storage<Name> = Storage::new();
    let mut i: usize = 0;
    while i < n
        invariant
            i <= n,
            st@.len() == i,
            forall|j: int| 0 <= j < i ==> st@[j] is None,
        decreases n - i,
    {
        st.grow();
        i += 1;
    }
    proof {
        assert(st@ =~= none_seq::<Name>(n as int));
    }
    let m = rows.len();
    let mut k: usize = 0;
    while k < m
        invariant
            m == rows@.len(),
            k <= m,
            st@ == apply_rows(none_seq(n as int), rows@.subrange(0, k as int)),
            st@.len() == n,
        decreases m - k,
    {
        let id = rows[k].0;
        let nm = Name { name: rows[k].1.name.clone() };
        proof {
            assert(nm == rows@[k as int].1);
        }
        st.insert(Entity { id }, nm);
        proof {
            assert(rows@.subrange(0, k + 1).drop_last() =~= rows@.subrange(0, k as int));
            assert(rows@.subrange(0, k + 1).last() == rows@[k as int]);
        }
        k += 1;
    }
    proof {
        assert(rows@.subrange(0, m as int) =~= rows@);
    }
    st
}

/// Restore a world from a snapshot. The log starts empty: it is
/// presentation state, not simulation state.
pub fn restore_snapshot(s: &Snapshot) -> (r: World)
    ensures
        r.alive@ == s.alive@,
        r.pending_delete@ == s.pending_delete@,
        ({
            forall|j: int| 0 <= j < s.n ==> match #[trigger] r.viewsheds@[j] {
                Some(vs) => exists|k: int|
                    0 <= k < s.viewshed_rows@.len() && (#[trigger] s.viewshed_rows@[k]).0 == j
                        && vs.visible_tiles@ == s.viewshed_rows@[k].1@ && vs.range
                        == s.viewshed_rows@[k].2 && vs.dirty == s.viewshed_rows@[k].3,
                None => !(exists|k: int|
                    0 <= k < s.viewshed_rows@.len() && (#[trigger] s.viewshed_rows@[k]).0 == j),
            }
        }),
        r.viewsheds@.len() == s.n,
        ({
            forall|j: int| 0 <= j < s.n ==> match #[trigger] r.suffer_damage@[j] {
                Some(sd) => exists|k: int|
                    0 <= k < s.suffer_rows@.len() && (#[trigger] s.suffer_rows@[k]).0 == j
                        && sd.amount@ == s.suffer_rows@[k].1@,
                None => !(exists|k: int|
                    0 <= k < s.suffer_rows@.len() && (#[trigger] s.suffer_rows@[k]).0 == j),
            }
        }),
        r.suffer_damage@.len() == s.n,
        r.names@ == apply_rows(none_seq(s.n as int), s.name_rows@),

        r.positions@ == apply_rows(none_seq(s.n as int), s.positions_rows@),
        r.renderables@ == apply_rows(none_seq(s.n as int), s.renderables_rows@),
        r.players@ == apply_rows(none_seq(s.n as int), s.players_rows@),
        r.monsters@ == apply_rows(none_seq(s.n as int), s.monsters_rows@),
        r.blockers@ == apply_rows(none_seq(s.n as int), s.blockers_rows@),
        r.combat_stats@ == apply_rows(none_seq(s.n as int), s.combat_stats_rows@),
        r.wants_melee@ == apply_rows(none_seq(s.n as int), s.wants_melee_rows@),
        r.items@ == apply_rows(none_seq(s.n as int), s.items_rows@),
        r.healing@ == apply_rows(none_seq(s.n as int), s.healing_rows@),
        r.backpacks@ == apply_rows(none_seq(s.n as int), s.backpacks_rows@),
        r.wants_pickup@ == apply_rows(none_seq(s.n as int), s.wants_pickup_rows@),
        r.wants_use@ == apply_rows(none_seq(s.n as int), s.wants_use_rows@),
        r.wants_drop@ == apply_rows(none_seq(s.n as int), s.wants_drop_rows@),
        r.consumables@ == apply_rows(none_seq(s.n as int), s.consumables_rows@),
        r.ranged@ == apply_rows(none_seq(s.n as int), s.ranged_rows@),
        r.inflicts_damage@ == apply_rows(none_seq(s.n as int), s.inflicts_damage_rows@),
        r.aoe@ == apply_rows(none_seq(s.n as int), s.aoe_rows@),
        r.confusion@ == apply_rows(none_seq(s.n as int), s.confusion_rows@),
        r.equippables@ == apply_rows(none_seq(s.n as int), s.equippables_rows@),
        r.equipped@ == apply_rows(none_seq(s.n as int), s.equipped_rows@),
        r.melee_bonuses@ == apply_rows(none_seq(s.n as int), s.melee_bonuses_rows@),
        r.defense_bonuses@ == apply_rows(none_seq(s.n as int), s.defense_bonuses_rows@),
        r.map.tiles@ == s.tiles@,
        r.map.rooms@ == s.rooms@,
        r.map.width == s.width,
        r.map.height == s.height,
        r.map.revealed_tiles@ == s.revealed_tiles@,
        r.map.visible_tiles@ == s.visible_tiles@,
        r.map.blocked@ == s.blocked@,
        r.map.tile_content@.len() == s.tile_content@.len(),
        forall|j: int| 0 <= j < s.tile_content@.len() ==> (#[trigger] r.map.tile_content@[j])@
            == s.tile_content@[j]@,
        r.player == s.player,
        r.player_pos == s.player_pos,
        r.log.entries@.len() == 0,
{
    let mut tile_content: Vec<Vec<Entity>> = Vec::new();
    let total = s.tile_content.len();
    let mut i: usize = 0;
    while i < total
        invariant
            total == s.tile_content@.len(),
            i <= total,
            tile_content@.len() == i,
            forall|j: int| 0 <= j < i ==> (#[trigger] tile_content@[j])@
                == s.tile_content@[j]@,
        decreases total - i,
    {
        let row = s.tile_content[i].clone();
        proof {
            assert(row@ =~= s.tile_content@[i as int]@);
        }
        tile_content.push(row);
        i += 1;
    }
    let map = GameMap {
        tiles: s.tiles.clone(),
        rooms: s.rooms.clone(),
        width: s.width,
        height: s.height,
        revealed_tiles: s.revealed_tiles.clone(),
        visible_tiles: s.visible_tiles.clone(),
        blocked: s.blocked.clone(),
        tile_content,
    };
    let r = World {
        alive: s.alive.clone(),
        pending_delete: s.pending_delete.clone(),
        positions: Storage::from_rows(s.n, &s.positions_rows),
        renderables: Storage::from_rows(s.n, &s.renderables_rows),
        players: Storage::from_rows(s.n, &s.players_rows),
        monsters: Storage::from_rows(s.n, &s.monsters_rows),
        blockers: Storage::from_rows(s.n, &s.blockers_rows),
        combat_stats: Storage::from_rows(s.n, &s.combat_stats_rows),
        wants_melee: Storage::from_rows(s.n, &s.wants_melee_rows),
        items: Storage::from_rows(s.n, &s.items_rows),
        healing: Storage::from_rows(s.n, &s.healing_rows),
        backpacks: Storage::from_rows(s.n, &s.backpacks_rows),
        wants_pickup: Storage::from_rows(s.n, &s.wants_pickup_rows),
        wants_use: Storage::from_rows(s.n, &s.wants_use_rows),
        wants_drop: Storage::from_rows(s.n, &s.wants_drop_rows),
        consumables: Storage::from_rows(s.n, &s.consumables_rows),
        ranged: Storage::from_rows(s.n, &s.ranged_rows),
        inflicts_damage: Storage::from_rows(s.n, &s.inflicts_damage_rows),
        aoe: Storage::from_rows(s.n, &s.aoe_rows),
        confusion: Storage::from_rows(s.n, &s.confusion_rows),
        equippables: Storage::from_rows(s.n, &s.equippables_rows),
        equipped: Storage::from_rows(s.n, &s.equipped_rows),
        melee_bonuses: Storage::from_rows(s.n, &s.melee_bonuses_rows),
        defense_bonuses: Storage::from_rows(s.n, &s.defense_bonuses_rows),
        names: names_from_rows(s.n, &s.name_rows),
        viewsheds: viewsheds_from_rows(s.n, &s.viewshed_rows),
        suffer_damage: suffer_from_rows(s.n, &s.suffer_rows),
        map,
        log: GameLog::new(),
        player: s.player,
        player_pos: s.player_pos,
    };
    proof {
        assert(r.alive@ =~= s.alive@);
        assert(r.pending_delete@ =~= s.pending_delete@);
        assert(r.map.tiles@ =~= s.tiles@);
        assert(r.map.rooms@ =~= s.rooms@);
        assert(r.map.revealed_tiles@ =~= s.revealed_tiles@);
        assert(r.map.visible_tiles@ =~= s.visible_tiles@);
        assert(r.map.blocked@ =~= s.blocked@);
    }
    r
}

/// The round trip: restoring a snapshot of a well-formed world yields a
/// world whose component store and map are element-wise equal to the
/// original.
pub proof fn lemma_snapshot_roundtrip(w: &World, s: Snapshot, w2: &World)
    requires
        w.wf(),
        // what make_snapshot ensures of `s`
        s.n == w.n(),
        s.alive@ == w.alive@,
        s.pending_delete@ == w.pending_delete@,
        s.positions_rows@ == rows_of(w.positions@),
        s.renderables_rows@ == rows_of(w.renderables@),
        s.players_rows@ == rows_of(w.players@),
        s.monsters_rows@ == rows_of(w.monsters@),
        s.blockers_rows@ == rows_of(w.blockers@),
        s.combat_stats_rows@ == rows_of(w.combat_stats@),
        s.wants_melee_rows@ == rows_of(w.wants_melee@),
        s.items_rows@ == rows_of(w.items@),
        s.healing_rows@ == rows_of(w.healing@),
        s.backpacks_rows@ == rows_of(w.backpacks@),
        s.wants_pickup_rows@ == rows_of(w.wants_pickup@),
        s.wants_use_rows@ == rows_of(w.wants_use@),
        s.wants_drop_rows@ == rows_of(w.wants_drop@),
        s.consumables_rows@ == rows_of(w.consumables@),
        s.ranged_rows@ == rows_of(w.ranged@),
        s.inflicts_damage_rows@ == rows_of(w.inflicts_damage@),
        s.aoe_rows@ == rows_of(w.aoe@),
        s.confusion_rows@ == rows_of(w.confusion@),
        s.equippables_rows@ == rows_of(w.equippables@),
        s.equipped_rows@ == rows_of(w.equipped@),
        s.melee_bonuses_rows@ == rows_of(w.melee_bonuses@),
        s.defense_bonuses_rows@ == rows_of(w.defense_bonuses@),
        s.name_rows@ == rows_of(w.names@),
        viewshed_rows_describe(s.viewshed_rows@, w.viewsheds@),
        suffer_rows_describe(s.suffer_rows@, w.suffer_damage@),
        s.tiles@ == w.map.tiles@,
        s.rooms@ == w.map.rooms@,
        s.width == w.map.width,
        s.height == w.map.height,
        s.revealed_tiles@ == w.map.revealed_tiles@,
        s.visible_tiles@ == w.map.visible_tiles@,
        s.blocked@ == w.map.blocked@,
        s.tile_content@.len() == w.map.tile_content@.len(),
        forall|j: int| 0 <= j < s.tile_content@.len() ==> (#[trigger] s.tile_content@[j])@
            == w.map.tile_content@[j]@,
        s.player == w.player,
        s.player_pos == w.player_pos,
        // what restore_snapshot ensures of `w2`
        w2.alive@ == s.alive@,
        w2.pending_delete@ == s.pending_delete@,
        w2.positions@ == apply_rows(none_seq(s.n as int), s.positions_rows@),
        w2.renderables@ == apply_rows(none_seq(s.n as int), s.renderables_rows@),
        w2.players@ == apply_rows(none_seq(s.n as int), s.players_rows@),
        w2.monsters@ == apply_rows(none_seq(s.n as int), s.monsters_rows@),
        w2.blockers@ == apply_rows(none_seq(s.n as int), s.blockers_rows@),
        w2.combat_stats@ == apply_rows(none_seq(s.n as int), s.combat_stats_rows@),
        w2.wants_melee@ == apply_rows(none_seq(s.n as int), s.wants_melee_rows@),
        w2.items@ == apply_rows(none_seq(s.n as int), s.items_rows@),
        w2.healing@ == apply_rows(none_seq(s.n as int), s.healing_rows@),
        w2.backpacks@ == apply_rows(none_seq(s.n as int), s.backpacks_rows@),
        w2.wants_pickup@ == apply_rows(none_seq(s.n as int), s.wants_pickup_rows@),
        w2.wants_use@ == apply_rows(none_seq(s.n as int), s.wants_use_rows@),
        w2.wants_drop@ == apply_rows(none_seq(s.n as int), s.wants_drop_rows@),
        w2.consumables@ == apply_rows(none_seq(s.n as int), s.consumables_rows@),
        w2.ranged@ == apply_rows(none_seq(s.n as int), s.ranged_rows@),
        w2.inflicts_damage@ == apply_rows(none_seq(s.n as int), s.inflicts_damage_rows@),
        w2.aoe@ == apply_rows(none_seq(s.n as int), s.aoe_rows@),
        w2.confusion@ == apply_rows(none_seq(s.n as int), s.confusion_rows@),
        w2.equippables@ == apply_rows(none_seq(s.n as int), s.equippables_rows@),
        w2.equipped@ == apply_rows(none_seq(s.n as int), s.equipped_rows@),
        w2.melee_bonuses@ == apply_rows(none_seq(s.n as int), s.melee_bonuses_rows@),
        w2.defense_bonuses@ == apply_rows(none_seq(s.n as int), s.defense_bonuses_rows@),
        w2.names@ == apply_rows(none_seq(s.n as int), s.name_rows@),
        w2.viewsheds@.len() == s.n,
        forall|j: int| 0 <= j < s.n ==> match #[trigger] w2.viewsheds@[j] {
            Some(vs) => exists|k: int|
                0 <= k < s.viewshed_rows@.len() && (#[trigger] s.viewshed_rows@[k]).0 == j
                    && vs.visible_tiles@ == s.viewshed_rows@[k].1@ && vs.range
                    == s.viewshed_rows@[k].2 && vs.dirty == s.viewshed_rows@[k].3,
            None => !(exists|k: int|
                0 <= k < s.viewshed_rows@.len() && (#[trigger] s.viewshed_rows@[k]).0 == j),
        },
        w2.suffer_damage@.len() == s.n,
        forall|j: int| 0 <= j < s.n ==> match #[trigger] w2.suffer_damage@[j] {
            Some(sd) => exists|k: int|
                0 <= k < s.suffer_rows@.len() && (#[trigger] s.suffer_rows@[k]).0 == j
                    && sd.amount@ == s.suffer_rows@[k].1@,
            None => !(exists|k: int|
                0 <= k < s.suffer_rows@.len() && (#[trigger] s.suffer_rows@[k]).0 == j),
        },
        w2.map.tiles@ == s.tiles@,
        w2.map.rooms@ == s.rooms@,
        w2.map.width == s.width,
        w2.map.height == s.height,
        w2.map.revealed_tiles@ == s.revealed_tiles@,
        w2.map.visible_tiles@ == s.visible_tiles@,
        w2.map.blocked@ == s.blocked@,
        w2.map.tile_content@.len() == s.tile_content@.len(),
        forall|j: int| 0 <= j < s.tile_content@.len() ==> (#[trigger] w2.map.tile_content@[j])@
            == s.tile_content@[j]@,
        w2.player == s.player,
        w2.player_pos == s.player_pos,
    ensures
        worlds_match(w, w2),
{
    lemma_rows_roundtrip(w.positions@);
    lemma_rows_roundtrip(w.renderables@);
    lemma_rows_roundtrip(w.players@);
    lemma_rows_roundtrip(w.monsters@);
    lemma_rows_roundtrip(w.blockers@);
    lemma_rows_roundtrip(w.combat_stats@);
    lemma_rows_roundtrip(w.wants_melee@);
    lemma_rows_roundtrip(w.items@);
    lemma_rows_roundtrip(w.healing@);
    lemma_rows_roundtrip(w.backpacks@);
    lemma_rows_roundtrip(w.wants_pickup@);
    lemma_rows_roundtrip(w.wants_use@);
    lemma_rows_roundtrip(w.wants_drop@);
    lemma_rows_roundtrip(w.consumables@);
    lemma_rows_roundtrip(w.ranged@);
    lemma_rows_roundtrip(w.inflicts_damage@);
    lemma_rows_roundtrip(w.aoe@);
    lemma_rows_roundtrip(w.confusion@);
    lemma_rows_roundtrip(w.equippables@);
    lemma_rows_roundtrip(w.equipped@);
    lemma_rows_roundtrip(w.melee_bonuses@);
    lemma_rows_roundtrip(w.defense_bonuses@);
    lemma_rows_roundtrip(w.names@);
    assert forall|j: int| 0 <= j < w.viewsheds@.len() implies (match (
        w.viewsheds@[j],
        #[trigger] w2.viewsheds@[j],
    ) {
        (Some(va), Some(vb)) => va.visible_tiles@ == vb.visible_tiles@ && va.range == vb.range
            && va.dirty == vb.dirty,
        (None, None) => true,
        _ => false,
    }) by {
        match w.viewsheds@[j] {
            Some(va) => {
                let k = choose|k: int|
                    0 <= k < s.viewshed_rows@.len() && (#[trigger] s.viewshed_rows@[k]).0 == j;
                assert(w2.viewsheds@[j] is Some);
            }
            None => {
                if w2.viewsheds@[j] is Some {
                    let k = choose|k: int|
                        0 <= k < s.viewshed_rows@.len() && (#[trigger] s.viewshed_rows@[k]).0
                            == j;
                    assert(w.viewsheds@[s.viewshed_rows@[k].0 as int] is Some);
                    assert(false);
                }
            }
        }
    }
    assert forall|j: int| 0 <= j < w.suffer_damage@.len() implies ((
    #[trigger] w2.suffer_damage@[j]) is Some <==> w.suffer_damage@[j] is Some)
        && crate::components::sd_amounts(w2.suffer_damage@[j]) == crate::components::sd_amounts(
        w.suffer_damage@[j],
    ) by {
        match w.suffer_damage@[j] {
            Some(sa) => {
                let k = choose|k: int|
                    0 <= k < s.suffer_rows@.len() && (#[trigger] s.suffer_rows@[k]).0 == j;
                assert(w2.suffer_damage@[j] is Some);
            }
            None => {
                if w2.suffer_damage@[j] is Some {
                    let k = choose|k: int|
                        0 <= k < s.suffer_rows@.len() && (#[trigger] s.suffer_rows@[k]).0 == j;
                    assert(w.suffer_damage@[s.suffer_rows@[k].0 as int] is Some);
                    assert(false);
                }
            }
        }
    }
}

} // verus!
