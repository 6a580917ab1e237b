//! The inventory systems: pickup, use and drop. The use resolver is the
//! richest pass: it resolves targeting (self, single tile, or a blast disc
//! clipped to the map interior), applies healing, damage, confusion and
//! equip effects, and consumes single-use items.

use vstd::prelude::*;
use crate::components::{
    CombatStats, Confusion, EquipmentSlot, Equipped, InBackpack, Name, Position, SufferDamage,
    sd_amounts,
};
use crate::fov::{field_of_view, spec_visible};
use crate::gamelog::log_view;
use crate::geom::{Point, dist2};
use crate::map::GameMap;
use crate::store::{Entity, Storage, entry};
use crate::world::World;

verus! {

/// No entity is listed as an occupant of two tiles, nor twice on one: the
/// shape the indexing system rebuilds the occupant lists into, kept until
/// the next rebuild whatever moves in between.
pub open spec fn occupants_ok(w: &World) -> bool {
    forall|t1: int, i1: int, t2: int, i2: int|
        #![trigger w.map.tile_content@[t1]@[i1], w.map.tile_content@[t2]@[i2]]
        0 <= t1 < w.map.tile_content@.len() && 0 <= i1 < w.map.tile_content@[t1]@.len() && 0 <= t2
            < w.map.tile_content@.len() && 0 <= i2 < w.map.tile_content@[t2]@.len() && (t1 != t2
            || i1 != i2) ==> w.map.tile_content@[t1]@[i1] != w.map.tile_content@[t2]@[i2]
}

/// A tile of the blast disc: visible from the centre within the radius and
/// strictly inside the map's outermost ring.
pub open spec fn blast_tile(m: &GameMap, center: Point, radius: int, q: Point) -> bool {
    spec_visible(m, center, radius, q) && m.in_interior(q.x as int, q.y as int)
}

/// `e` occupies a tile of the blast disc around `center`.
pub open spec fn in_blast(w: &World, center: Point, radius: int, e: Entity) -> bool {
    exists|q: Point|
        #![trigger blast_tile(&w.map, center, radius, q)]
        blast_tile(&w.map, center, radius, q) && w.map.tile_content@[w.map.spec_idx(
            q.x as int,
            q.y as int,
        )]@.contains(e)
}

/// The targets of a use intent: self when no point is given; the occupants
/// of the one tile when the item has no area of effect; the occupants of
/// the whole clipped blast disc when it has one. No entity is listed twice.
pub open spec fn targets_spec(w: &World, target: Option<Point>, radius: Option<i32>, e: Entity)
    -> bool {
    match target {
        None => e == w.player,
        Some(pt) => match radius {
            None => w.map.tile_content@[w.map.spec_idx(pt.x as int, pt.y as int)]@.contains(e),
            Some(r) => in_blast(w, pt, r as int, e),
        },
    }
}

/// Resolve a use intent's targets.
pub fn resolve_targets(world: &World, target: Option<Point>, radius: Option<i32>) -> (r: Vec<
    Entity,
>)
    requires
        world.wf(),
        occupants_ok(world),
        target matches Some(pt) ==> world.map.in_map(pt.x as int, pt.y as int),
        radius matches Some(rad) ==> rad >= 0,
    ensures
        forall|e: Entity| r@.contains(e) <==> targets_spec(world, target, radius, e),
        forall|i: int, j: int| 0 <= i < j < r@.len() ==> r@[i] != r@[j],
{
    match target {
        None => {
            let mut r: Vec<Entity> = Vec::new();
            r.push(world.player);
            proof {
                assert forall|e: Entity| r@.contains(e) implies targets_spec(
                    world,
                    target,
                    radius,
                    e,
                ) by {
                    assert(r@[0] == world.player);
                }
                assert(r@.contains(world.player));
            }
            r
        }
        Some(pt) => {
            match radius {
                None => {
                    let idx = world.map.xy_idx(pt.x, pt.y);
                    let r = world.map.tile_content[idx].clone();
                    proof {
                        assert(r@ =~= world.map.tile_content@[idx as int]@);
                        assert forall|e: Entity| r@.contains(e) implies targets_spec(
                            world,
                            target,
                            radius,
                            e,
                        ) by {}
                    }
                    r
                }
                Some(rad) => {
                    let blast = field_of_view(&world.map, pt, rad);
                    let mut r: Vec<Entity> = Vec::new();
                    let nb = blast.len();
                    let mut bi: usize = 0;
                    while bi < nb
                        invariant
                            world.wf(),
                            occupants_ok(world),
                            world.map.in_map(pt.x as int, pt.y as int),
                            rad >= 0,
                            nb == blast@.len(),
                            bi <= nb,
                            forall|i: int| 0 <= i < nb ==> spec_visible(
                                &world.map,
                                pt,
                                rad as int,
                                #[trigger] blast@[i],
                            ),
                            forall|i: int, j: int| 0 <= i < j < nb ==> blast@[i] != blast@[j],
                            forall|e: Entity| #[trigger] r@.contains(e) <==> exists|i: int|
                                0 <= i < bi && blast_tile(&world.map, pt, rad as int, blast@[i])
                                    && world.map.tile_content@[world.map.spec_idx(
                                    (#[trigger] blast@[i]).x as int,
                                    blast@[i].y as int,
                                )]@.contains(e),
                            forall|i: int, j: int| 0 <= i < j < r@.len() ==> r@[i] != r@[j],
                        decreases nb - bi,
                    {
                        let q = blast[bi];
                        let qidx = world.map.xy_idx(q.x, q.y);
                        proof {
                            world.map.lemma_idx_bounds(q.x as int, q.y as int);
                        }
                        let inside = q.x > 0 && q.x < world.map.width - 1 && q.y > 0 && q.y
                            < world.map.height - 1;
                        if inside {
                            let row = &world.map.tile_content[qidx];
                            let nr = row.len();
                            let mut ri: usize = 0;
                            while ri < nr
                                invariant
                                    world.wf(),
                                    occupants_ok(world),
                                    world.map.in_map(pt.x as int, pt.y as int),
                                    rad >= 0,
                                    nb == blast@.len(),
                                    bi < nb,
                                    q == blast@[bi as int],
                                    blast_tile(&world.map, pt, rad as int, q),
                                    qidx == world.map.spec_idx(q.x as int, q.y as int),
                                    0 <= qidx < world.map.tile_content@.len(),
                                    nr == world.map.tile_content@[qidx as int]@.len(),
                                    row@ == world.map.tile_content@[qidx as int]@,
                                    ri <= nr,
                                    forall|i: int| 0 <= i < nb ==> spec_visible(
                                        &world.map,
                                        pt,
                                        rad as int,
                                        #[trigger] blast@[i],
                                    ),
                                    forall|i: int, j: int| 0 <= i < j < nb ==> blast@[i]
                                        != blast@[j],
                                    forall|e: Entity| #[trigger] r@.contains(e) <==> ((exists|
                                        i: int,
                                    |
                                        0 <= i < bi && blast_tile(
                                            &world.map,
                                            pt,
                                            rad as int,
                                            blast@[i],
                                        ) && world.map.tile_content@[world.map.spec_idx(
                                            (#[trigger] blast@[i]).x as int,
                                            blast@[i].y as int,
                                        )]@.contains(e)) || exists|j: int|
                                        0 <= j < ri && world.map.tile_content@[qidx as int]@[j]
                                            == e),
                                    forall|i: int, j: int| 0 <= i < j < r@.len() ==> r@[i]
                                        != r@[j],
                                decreases nr - ri,
                            {
                                let ent = row[ri];
                                let ghost rpre = r@;
                                r.push(ent);
                                proof {
                                    let ghost rlen = r@.len() - 1;
                                    assert(r@[rlen] == ent);
                                    assert(r@.drop_last() =~= rpre);
                                    assert(ent == world.map.tile_content@[qidx as int]@[ri as int]);
                                    assert forall|e: Entity| #[trigger] r@.contains(e) implies ((
                                    exists|i: int|
                                        0 <= i < bi && blast_tile(
                                            &world.map,
                                            pt,
                                            rad as int,
                                            blast@[i],
                                        ) && world.map.tile_content@[world.map.spec_idx(
                                            (#[trigger] blast@[i]).x as int,
                                            blast@[i].y as int,
                                        )]@.contains(e)) || exists|j: int|
                                        0 <= j < ri + 1 && world.map.tile_content@[qidx as int]@[j]
                                            == e) by {
                                        let w = choose|k: int| 0 <= k < r@.len() && r@[k] == e;
                                        if w < rlen {
                                            assert(rpre.contains(e)) by {
                                                assert(rpre[w] == e);
                                            }
                                        } else {
                                            assert(e == ent);
                                            assert(world.map.tile_content@[qidx as int]@[
                                                ri as int
                                            ] == e);
                                        }
                                    }
                                    assert forall|e: Entity| ((exists|i: int|
                                        0 <= i < bi && blast_tile(
                                            &world.map,
                                            pt,
                                            rad as int,
                                            blast@[i],
                                        ) && world.map.tile_content@[world.map.spec_idx(
                                            (#[trigger] blast@[i]).x as int,
                                            blast@[i].y as int,
                                        )]@.contains(e)) || exists|j: int|
                                        0 <= j < ri + 1 && world.map.tile_content@[qidx as int]@[j]
                                            == e) implies #[trigger] r@.contains(e) by {
                                        if e == ent {
                                            assert(r@[rlen] == e);
                                        } else {
                                            assert(rpre.contains(e));
                                            let w = choose|k: int|
                                                0 <= k < rpre.len() && rpre[k] == e;
                                            assert(r@[w] == e);
                                        }
                                    }
                                    // the new entity was not seen before: it stands on tile
                                    // qidx, and earlier tiles are different tiles
                                    assert forall|i: int, j: int|
                                        0 <= i < j < r@.len() implies r@[i] != r@[j] by {
                                        if j == rlen {
                                            if r@[i] == ent {
                                                assert(rpre[i] == ent);
                                                assert(rpre.contains(ent));
                                                assert forall|i2: int|
                                                    0 <= i2 < blast@.len() implies world.map.in_map(
                                                    (#[trigger] blast@[i2]).x as int,
                                                    blast@[i2].y as int,
                                                ) by {
                                                    assert(spec_visible(
                                                        &world.map,
                                                        pt,
                                                        rad as int,
                                                        blast@[i2],
                                                    ));
                                                }
                                                lemma_no_double_listing(
                                                    world,
                                                    pt,
                                                    rad as int,
                                                    blast@,
                                                    bi as int,
                                                    qidx as int,
                                                    ri as int,
                                                    ent,
                                                );
                                                assert(false);
                                            }
                                        }
                                    }
                                }
                                ri += 1;
                            }
                        }
                        proof {
                            assert forall|e: Entity| #[trigger] r@.contains(e) implies exists|
                                i: int,
                            |
                                0 <= i < bi + 1 && blast_tile(&world.map, pt, rad as int, blast@[i])
                                    && world.map.tile_content@[world.map.spec_idx(
                                    (#[trigger] blast@[i]).x as int,
                                    blast@[i].y as int,
                                )]@.contains(e) by {
                                if inside {
                                    if exists|j: int|
                                        0 <= j < world.map.tile_content@[qidx as int]@.len()
                                            && world.map.tile_content@[qidx as int]@[j] == e {
                                        assert(blast_tile(&world.map, pt, rad as int, blast@[
                                            bi as int
                                        ]));
                                        assert(world.map.tile_content@[world.map.spec_idx(
                                            q.x as int,
                                            q.y as int,
                                        )]@.contains(e));
                                    }
                                }
                            }
                            assert forall|e: Entity|
                                (exists|i: int|
                                    0 <= i < bi + 1 && blast_tile(
                                        &world.map,
                                        pt,
                                        rad as int,
                                        blast@[i],
                                    ) && world.map.tile_content@[world.map.spec_idx(
                                        (#[trigger] blast@[i]).x as int,
                                        blast@[i].y as int,
                                    )]@.contains(e)) implies #[trigger] r@.contains(e) by {
                                let i = choose|i: int|
                                    0 <= i < bi + 1 && blast_tile(
                                        &world.map,
                                        pt,
                                        rad as int,
                                        blast@[i],
                                    ) && world.map.tile_content@[world.map.spec_idx(
                                        (#[trigger] blast@[i]).x as int,
                                        blast@[i].y as int,
                                    )]@.contains(e);
                                if i == bi {
                                    assert(inside);
                                    let j = choose|j: int|
                                        0 <= j < world.map.tile_content@[qidx as int]@.len()
                                            && world.map.tile_content@[qidx as int]@[j] == e;
                                }
                            }
                        }
                        bi += 1;
                    }
                    proof {
                        assert forall|e: Entity| #[trigger] r@.contains(e) <==> targets_spec(
                            world,
                            target,
                            radius,
                            e,
                        ) by {
                            if r@.contains(e) {
                                let i = choose|i: int|
                                    0 <= i < nb && blast_tile(&world.map, pt, rad as int, blast@[i])
                                        && world.map.tile_content@[world.map.spec_idx(
                                        (#[trigger] blast@[i]).x as int,
                                        blast@[i].y as int,
                                    )]@.contains(e);
                                assert(in_blast(world, pt, rad as int, e));
                            }
                            if targets_spec(world, target, radius, e) {
                                let q2 = choose|q2: Point|
                                    #![trigger blast_tile(&world.map, pt, rad as int, q2)]
                                    blast_tile(&world.map, pt, rad as int, q2)
                                        && world.map.tile_content@[world.map.spec_idx(
                                        q2.x as int,
                                        q2.y as int,
                                    )]@.contains(e);
                                assert(spec_visible(&world.map, pt, rad as int, q2));
                                assert(blast@.contains(q2));
                                let i = choose|i: int| 0 <= i < nb && blast@[i] == q2;
                            }
                        }
                    }
                    r
                }
            }
        }
    }
}

/// An entity already collected from an earlier blast tile, or earlier on
/// this tile, cannot be the one just read: every occupant stands on exactly
/// one tile and is listed there once.
proof fn lemma_no_double_listing(
    w: &World,
    pt: Point,
    rad: int,
    blast: Seq<Point>,
    bi: int,
    qidx: int,
    ri: int,
    ent: Entity,
)
    requires
        w.wf(),
        occupants_ok(w),
        0 <= bi < blast.len(),
        forall|i: int, j: int| 0 <= i < j < blast.len() ==> blast[i] != blast[j],
        forall|i: int| 0 <= i < blast.len() ==> w.map.in_map(
            (#[trigger] blast[i]).x as int,
            blast[i].y as int,
        ),
        qidx == w.map.spec_idx(blast[bi].x as int, blast[bi].y as int),
        0 <= qidx < w.map.tile_content@.len(),
        0 <= ri < w.map.tile_content@[qidx]@.len(),
        ent == w.map.tile_content@[qidx]@[ri],
    ensures
        !(exists|i: int|
            0 <= i < bi && blast_tile(&w.map, pt, rad, blast[i]) && w.map.tile_content@[
                w.map.spec_idx((#[trigger] blast[i]).x as int, blast[i].y as int)
            ]@.contains(ent)),
        !(exists|j: int| 0 <= j < ri && w.map.tile_content@[qidx]@[j] == ent),
{
    if exists|i: int|
        0 <= i < bi && blast_tile(&w.map, pt, rad, blast[i]) && w.map.tile_content@[w.map.spec_idx(
            (#[trigger] blast[i]).x as int,
            blast[i].y as int,
        )]@.contains(ent) {
        let i = choose|i: int|
            0 <= i < bi && blast_tile(&w.map, pt, rad, blast[i]) && w.map.tile_content@[
                w.map.spec_idx((#[trigger] blast[i]).x as int, blast[i].y as int)
            ]@.contains(ent);
        let oidx = w.map.spec_idx(blast[i].x as int, blast[i].y as int);
        w.map.lemma_idx_bounds(blast[i].x as int, blast[i].y as int);
        let j = choose|j: int| 0 <= j < w.map.tile_content@[oidx]@.len() && w.map.tile_content@[
            oidx
        ]@[j] == ent;
        if oidx == qidx {
            w.map.lemma_idx_injective(
                blast[i].x as int,
                blast[i].y as int,
                blast[bi].x as int,
                blast[bi].y as int,
            );
            assert(blast[i] == blast[bi]);
            assert(false);
        } else {
            assert(w.map.tile_content@[oidx]@[j] != w.map.tile_content@[qidx]@[ri]);
            assert(false);
        }
    }
    if exists|j: int| 0 <= j < ri && w.map.tile_content@[qidx]@[j] == ent {
        let j = choose|j: int| 0 <= j < ri && w.map.tile_content@[qidx]@[j] == ent;
        assert(w.map.tile_content@[qidx]@[j] != w.map.tile_content@[qidx]@[ri]);
        assert(false);
    }
}

/// Blast targeting on an unobstructed map hits exactly the entities on
/// interior tiles within Euclidean distance `radius` of the centre.
pub proof fn lemma_blast_unobstructed(w: &World, pt: Point, radius: int, e: Entity)
    requires
        w.wf(),
        crate::fov::unobstructed(&w.map),
        w.map.in_interior(pt.x as int, pt.y as int),
        occupants_ok(w),
    ensures
        in_blast(w, pt, radius, e) <==> (exists|q: Point|
            #![trigger dist2(pt, q)]
            w.map.in_interior(q.x as int, q.y as int) && dist2(pt, q) <= radius * radius
                && w.map.tile_content@[w.map.spec_idx(q.x as int, q.y as int)]@.contains(e)),
{
    if in_blast(w, pt, radius, e) {
        let q = choose|q: Point|
            #![trigger blast_tile(&w.map, pt, radius, q)]
            blast_tile(&w.map, pt, radius, q) && w.map.tile_content@[w.map.spec_idx(
                q.x as int,
                q.y as int,
            )]@.contains(e);
        assert(dist2(pt, q) <= radius * radius);
    }
    if exists|q: Point|
        #![trigger dist2(pt, q)]
        w.map.in_interior(q.x as int, q.y as int) && dist2(pt, q) <= radius * radius
            && w.map.tile_content@[w.map.spec_idx(q.x as int, q.y as int)]@.contains(e) {
        let q = choose|q: Point|
            #![trigger dist2(pt, q)]
            w.map.in_interior(q.x as int, q.y as int) && dist2(pt, q) <= radius * radius
                && w.map.tile_content@[w.map.spec_idx(q.x as int, q.y as int)]@.contains(e);
        crate::fov::lemma_visible_unobstructed(&w.map, pt, radius, q);
        assert(blast_tile(&w.map, pt, radius, q));
        assert(in_blast(w, pt, radius, e));
    }
}


/// Raise each target's hit points by `heal`, clamped to its max_hp; a
/// target without combat stats is unaffected.
pub fn apply_healing(world: &mut World, targets: &Vec<Entity>, heal: i32)
    requires
        old(world).wf(),
        forall|i: int, j: int| 0 <= i < j < targets@.len() ==> targets@[i] != targets@[j],
    ensures
        final(world).wf(),
        final(world).n() == old(world).n(),
        forall|e: int| 0 <= e < old(world).n() ==> #[trigger] final(world).combat_stats@[e] == (
        if targets@.contains(Entity { id: e as usize }) {
            match old(world).combat_stats@[e] {
                Some(st) => Some(
                    CombatStats {
                        max_hp: st.max_hp,
                        hp: (if st.max_hp <= crate::damage_system::clamp_i32(st.hp + heal) {
                            st.max_hp as int
                        } else {
                            crate::damage_system::clamp_i32(st.hp + heal)
                        }) as i32,
                        defense: st.defense,
                        power: st.power,
                    },
                ),
                None => None,
            }
        } else {
            old(world).combat_stats@[e]
        }),
        final(world).positions@ == old(world).positions@,
        final(world).renderables@ == old(world).renderables@,
        final(world).players@ == old(world).players@,
        final(world).monsters@ == old(world).monsters@,
        final(world).viewsheds@ == old(world).viewsheds@,
        final(world).names@ == old(world).names@,
        final(world).blockers@ == old(world).blockers@,
        final(world).wants_melee@ == old(world).wants_melee@,
        final(world).suffer_damage@ == old(world).suffer_damage@,
        final(world).items@ == old(world).items@,
        final(world).healing@ == old(world).healing@,
        final(world).backpacks@ == old(world).backpacks@,
        final(world).wants_pickup@ == old(world).wants_pickup@,
        final(world).wants_use@ == old(world).wants_use@,
        final(world).wants_drop@ == old(world).wants_drop@,
        final(world).consumables@ == old(world).consumables@,
        final(world).ranged@ == old(world).ranged@,
        final(world).inflicts_damage@ == old(world).inflicts_damage@,
        final(world).aoe@ == old(world).aoe@,
        final(world).confusion@ == old(world).confusion@,
        final(world).equippables@ == old(world).equippables@,
        final(world).equipped@ == old(world).equipped@,
        final(world).melee_bonuses@ == old(world).melee_bonuses@,
        final(world).defense_bonuses@ == old(world).defense_bonuses@,
        final(world).alive@ == old(world).alive@,
        final(world).pending_delete@ == old(world).pending_delete@,
        final(world).map == old(world).map,
        final(world).log == old(world).log,
        final(world).player == old(world).player,
        final(world).player_pos == old(world).player_pos,
{
    let nt = targets.len();
    let mut ti: usize = 0;
    while ti < nt
        invariant
            world.wf(),
            old(world).wf(),
            nt == targets@.len(),
            ti <= nt,
            world.n() == old(world).n(),
            forall|i: int, j: int| 0 <= i < j < nt ==> targets@[i] != targets@[j],
            forall|e: int| 0 <= e < old(world).n() ==> #[trigger] world.combat_stats@[e] == (
            if exists|k: int| 0 <= k < ti && (#[trigger] targets@[k]).id == e {
                match old(world).combat_stats@[e] {
                    Some(st) => Some(
                        CombatStats {
                            max_hp: st.max_hp,
                            hp: (if st.max_hp <= crate::damage_system::clamp_i32(st.hp + heal) {
                                st.max_hp as int
                            } else {
                                crate::damage_system::clamp_i32(st.hp + heal)
                            }) as i32,
                            defense: st.defense,
                            power: st.power,
                        },
                    ),
                    None => None,
                }
            } else {
                old(world).combat_stats@[e]
            }),
            world.positions@ == old(world).positions@,
            world.renderables@ == old(world).renderables@,
            world.players@ == old(world).players@,
            world.monsters@ == old(world).monsters@,
            world.viewsheds@ == old(world).viewsheds@,
            world.names@ == old(world).names@,
            world.blockers@ == old(world).blockers@,
            world.wants_melee@ == old(world).wants_melee@,
            world.suffer_damage@ == old(world).suffer_damage@,
            world.items@ == old(world).items@,
            world.healing@ == old(world).healing@,
            world.backpacks@ == old(world).backpacks@,
            world.wants_pickup@ == old(world).wants_pickup@,
            world.wants_use@ == old(world).wants_use@,
            world.wants_drop@ == old(world).wants_drop@,
            world.consumables@ == old(world).consumables@,
            world.ranged@ == old(world).ranged@,
            world.inflicts_damage@ == old(world).inflicts_damage@,
            world.aoe@ == old(world).aoe@,
            world.confusion@ == old(world).confusion@,
            world.equippables@ == old(world).equippables@,
            world.equipped@ == old(world).equipped@,
            world.melee_bonuses@ == old(world).melee_bonuses@,
            world.defense_bonuses@ == old(world).defense_bonuses@,
            world.alive@ == old(world).alive@,
            world.pending_delete@ == old(world).pending_delete@,
            world.map == old(world).map,
            world.log == old(world).log,
            world.player == old(world).player,
            world.player_pos == old(world).player_pos,
        decreases nt - ti,
    {
        let t = targets[ti];
        let ghost cs0 = world.combat_stats@;
        match world.combat_stats.get(t) {
            Some(st) => {
                let st = *st;
                let hp64: i64 = (st.hp as i64) + (heal as i64);
                let clamped: i32 = if hp64 > (i32::MAX as i64) {
                    i32::MAX
                } else if hp64 < (i32::MIN as i64) {
                    i32::MIN
                } else {
                    hp64 as i32
                };
                let new_hp: i32 = if st.max_hp <= clamped {
                    st.max_hp
                } else {
                    clamped
                };
                world.combat_stats.insert(
                    t,
                    CombatStats {
                        max_hp: st.max_hp,
                        hp: new_hp,
                        defense: st.defense,
                        power: st.power,
                    },
                );
                proof {
                    assert(t.id < old(world).n());
                    assert(cs0[t.id as int] == old(world).combat_stats@[t.id as int]) by {
                        assert(!(exists|k: int|
                            0 <= k < ti && (#[trigger] targets@[k]).id == t.id as int));
                    }
                }
            }
            None => {}
        }
        proof {
            assert forall|e: int| 0 <= e < old(world).n() implies #[trigger] world.combat_stats@[e]
                == (if exists|k: int| 0 <= k < ti + 1 && (#[trigger] targets@[k]).id == e {
                match old(world).combat_stats@[e] {
                    Some(st) => Some(
                        CombatStats {
                            max_hp: st.max_hp,
                            hp: (if st.max_hp <= crate::damage_system::clamp_i32(st.hp + heal) {
                                st.max_hp as int
                            } else {
                                crate::damage_system::clamp_i32(st.hp + heal)
                            }) as i32,
                            defense: st.defense,
                            power: st.power,
                        },
                    ),
                    None => None,
                }
            } else {
                old(world).combat_stats@[e]
            }) by {
                if e == t.id {
                    assert(targets@[ti as int].id == e);
                } else {
                    assert(world.combat_stats@[e] == cs0[e]);
                    assert((exists|k: int| 0 <= k < ti + 1 && (#[trigger] targets@[k]).id == e)
                        == (exists|k: int| 0 <= k < ti && (#[trigger] targets@[k]).id == e));
                }
            }
        }
        ti += 1;
    }
    proof {
        assert forall|e: int| #![trigger world.combat_stats@[e]] 0 <= e < old(world).n()
            implies (exists|k: int| 0 <= k < nt && (#[trigger] targets@[k]).id == e)
            == targets@.contains(Entity { id: e as usize }) by {
            if exists|k: int| 0 <= k < nt && (#[trigger] targets@[k]).id == e {
                let k = choose|k: int| 0 <= k < nt && (#[trigger] targets@[k]).id == e;
                assert(targets@[k] == Entity { id: e as usize });
            }
            if targets@.contains(Entity { id: e as usize }) {
                let k = choose|k: int|
                    0 <= k < nt && targets@[k] == Entity { id: e as usize };
                assert(targets@[k].id == e);
            }
        }
    }
}


/// Append `dmg` to each target's damage accrual.
pub fn apply_inflict(world: &mut World, targets: &Vec<Entity>, dmg: i32)
    requires
        old(world).wf(),
        dmg >= 0,
        forall|i: int, j: int| 0 <= i < j < targets@.len() ==> targets@[i] != targets@[j],
    ensures
        final(world).wf(),
        final(world).n() == old(world).n(),
        forall|e: int| 0 <= e < old(world).n() ==> sd_amounts(
            #[trigger] final(world).suffer_damage@[e],
        ) == (if targets@.contains(Entity { id: e as usize }) {
            sd_amounts(old(world).suffer_damage@[e]).push(dmg)
        } else {
            sd_amounts(old(world).suffer_damage@[e])
        }),
        forall|e: int| 0 <= e < old(world).n() ==> ((#[trigger] final(world).suffer_damage@[e])
            is Some <==> (old(world).suffer_damage@[e] is Some || targets@.contains(
            Entity { id: e as usize },
        ))),
        final(world).positions@ == old(world).positions@,
        final(world).renderables@ == old(world).renderables@,
        final(world).players@ == old(world).players@,
        final(world).monsters@ == old(world).monsters@,
        final(world).viewsheds@ == old(world).viewsheds@,
        final(world).names@ == old(world).names@,
        final(world).blockers@ == old(world).blockers@,
        final(world).combat_stats@ == old(world).combat_stats@,
        final(world).wants_melee@ == old(world).wants_melee@,
        final(world).items@ == old(world).items@,
        final(world).healing@ == old(world).healing@,
        final(world).backpacks@ == old(world).backpacks@,
        final(world).wants_pickup@ == old(world).wants_pickup@,
        final(world).wants_use@ == old(world).wants_use@,
        final(world).wants_drop@ == old(world).wants_drop@,
        final(world).consumables@ == old(world).consumables@,
        final(world).ranged@ == old(world).ranged@,
        final(world).inflicts_damage@ == old(world).inflicts_damage@,
        final(world).aoe@ == old(world).aoe@,
        final(world).confusion@ == old(world).confusion@,
        final(world).equippables@ == old(world).equippables@,
        final(world).equipped@ == old(world).equipped@,
        final(world).melee_bonuses@ == old(world).melee_bonuses@,
        final(world).defense_bonuses@ == old(world).defense_bonuses@,
        final(world).alive@ == old(world).alive@,
        final(world).pending_delete@ == old(world).pending_delete@,
        final(world).map == old(world).map,
        final(world).log == old(world).log,
        final(world).player == old(world).player,
        final(world).player_pos == old(world).player_pos,
{
    let nt = targets.len();
    let mut ti: usize = 0;
    while ti < nt
        invariant
            world.wf(),
            old(world).wf(),
            dmg >= 0,
            nt == targets@.len(),
            ti <= nt,
            world.n() == old(world).n(),
            forall|i: int, j: int| 0 <= i < j < nt ==> targets@[i] != targets@[j],
            forall|e: int| 0 <= e < old(world).n() ==> sd_amounts(
                #[trigger] world.suffer_damage@[e],
            ) == (if exists|k: int| 0 <= k < ti && (#[trigger] targets@[k]).id == e {
                sd_amounts(old(world).suffer_damage@[e]).push(dmg)
            } else {
                sd_amounts(old(world).suffer_damage@[e])
            }),
            forall|e: int| 0 <= e < old(world).n() ==> ((#[trigger] world.suffer_damage@[e])
                is Some <==> (old(world).suffer_damage@[e] is Some || exists|k: int|
                0 <= k < ti && (#[trigger] targets@[k]).id == e)),
            world.positions@ == old(world).positions@,
            world.renderables@ == old(world).renderables@,
            world.players@ == old(world).players@,
            world.monsters@ == old(world).monsters@,
            world.viewsheds@ == old(world).viewsheds@,
            world.names@ == old(world).names@,
            world.blockers@ == old(world).blockers@,
            world.combat_stats@ == old(world).combat_stats@,
            world.wants_melee@ == old(world).wants_melee@,
            world.items@ == old(world).items@,
            world.healing@ == old(world).healing@,
            world.backpacks@ == old(world).backpacks@,
            world.wants_pickup@ == old(world).wants_pickup@,
            world.wants_use@ == old(world).wants_use@,
            world.wants_drop@ == old(world).wants_drop@,
            world.consumables@ == old(world).consumables@,
            world.ranged@ == old(world).ranged@,
            world.inflicts_damage@ == old(world).inflicts_damage@,
            world.aoe@ == old(world).aoe@,
            world.confusion@ == old(world).confusion@,
            world.equippables@ == old(world).equippables@,
            world.equipped@ == old(world).equipped@,
            world.melee_bonuses@ == old(world).melee_bonuses@,
            world.defense_bonuses@ == old(world).defense_bonuses@,
            world.alive@ == old(world).alive@,
            world.pending_delete@ == old(world).pending_delete@,
            world.map == old(world).map,
            world.log == old(world).log,
            world.player == old(world).player,
            world.player_pos == old(world).player_pos,
        decreases nt - ti,
    {
        let t = targets[ti];
        let ghost sd0 = world.suffer_damage@;
        if t.id < world.suffer_damage.len() {
            SufferDamage::new_damage(&mut world.suffer_damage, t, dmg);
        }
        proof {
            assert forall|e: int| 0 <= e < old(world).n() implies sd_amounts(
                #[trigger] world.suffer_damage@[e],
            ) == (if exists|k: int| 0 <= k < ti + 1 && (#[trigger] targets@[k]).id == e {
                sd_amounts(old(world).suffer_damage@[e]).push(dmg)
            } else {
                sd_amounts(old(world).suffer_damage@[e])
            }) by {
                if e == t.id {
                    assert(targets@[ti as int].id == e);
                    assert(!(exists|k: int|
                        0 <= k < ti && (#[trigger] targets@[k]).id == e));
                    assert(sd_amounts(entry(world.suffer_damage@, e)) == sd_amounts(
                        entry(sd0, e),
                    ).push(dmg));
                } else {
                    assert(world.suffer_damage@[e] == sd0[e]);
                    assert((exists|k: int| 0 <= k < ti + 1 && (#[trigger] targets@[k]).id == e)
                        == (exists|k: int| 0 <= k < ti && (#[trigger] targets@[k]).id == e));
                }
            }
        }
        ti += 1;
    }
    proof {
        assert forall|e: int| #![trigger world.suffer_damage@[e]] 0 <= e < old(world).n()
            implies (exists|k: int| 0 <= k < nt && (#[trigger] targets@[k]).id == e)
            == targets@.contains(Entity { id: e as usize }) by {
            if exists|k: int| 0 <= k < nt && (#[trigger] targets@[k]).id == e {
                let k = choose|k: int| 0 <= k < nt && (#[trigger] targets@[k]).id == e;
                assert(targets@[k] == Entity { id: e as usize });
            }
            if targets@.contains(Entity { id: e as usize }) {
                let k = choose|k: int| 0 <= k < nt && targets@[k] == Entity { id: e as usize };
                assert(targets@[k].id == e);
            }
        }
    }
}

/// Mark each target as confused for `turns` turns. The insertions happen
/// after target iteration completes; with the store's last-write-wins slots
/// the observable result is each target holding Confusion with `turns`.
pub fn apply_confusion(world: &mut World, targets: &Vec<Entity>, turns: i32)
    requires
        old(world).wf(),
    ensures
        final(world).wf(),
        final(world).n() == old(world).n(),
        forall|e: int| 0 <= e < old(world).n() ==> #[trigger] final(world).confusion@[e] == (
        if targets@.contains(Entity { id: e as usize }) {
            Some(Confusion { turns })
        } else {
            old(world).confusion@[e]
        }),
        final(world).positions@ == old(world).positions@,
        final(world).renderables@ == old(world).renderables@,
        final(world).players@ == old(world).players@,
        final(world).monsters@ == old(world).monsters@,
        final(world).viewsheds@ == old(world).viewsheds@,
        final(world).names@ == old(world).names@,
        final(world).blockers@ == old(world).blockers@,
        final(world).combat_stats@ == old(world).combat_stats@,
        final(world).wants_melee@ == old(world).wants_melee@,
        final(world).suffer_damage@ == old(world).suffer_damage@,
        final(world).items@ == old(world).items@,
        final(world).healing@ == old(world).healing@,
        final(world).backpacks@ == old(world).backpacks@,
        final(world).wants_pickup@ == old(world).wants_pickup@,
        final(world).wants_use@ == old(world).wants_use@,
        final(world).wants_drop@ == old(world).wants_drop@,
        final(world).consumables@ == old(world).consumables@,
        final(world).ranged@ == old(world).ranged@,
        final(world).inflicts_damage@ == old(world).inflicts_damage@,
        final(world).aoe@ == old(world).aoe@,
        final(world).equippables@ == old(world).equippables@,
        final(world).equipped@ == old(world).equipped@,
        final(world).melee_bonuses@ == old(world).melee_bonuses@,
        final(world).defense_bonuses@ == old(world).defense_bonuses@,
        final(world).alive@ == old(world).alive@,
        final(world).pending_delete@ == old(world).pending_delete@,
        final(world).map == old(world).map,
        final(world).log == old(world).log,
        final(world).player == old(world).player,
        final(world).player_pos == old(world).player_pos,
{
    let nt = targets.len();
    let mut ti: usize = 0;
    while ti < nt
        invariant
            world.wf(),
            old(world).wf(),
            nt == targets@.len(),
            ti <= nt,
            world.n() == old(world).n(),
            forall|e: int| 0 <= e < old(world).n() ==> #[trigger] world.confusion@[e] == (
            if exists|k: int| 0 <= k < ti && (#[trigger] targets@[k]).id == e {
                Some(Confusion { turns })
            } else {
                old(world).confusion@[e]
            }),
            world.positions@ == old(world).positions@,
            world.renderables@ == old(world).renderables@,
            world.players@ == old(world).players@,
            world.monsters@ == old(world).monsters@,
            world.viewsheds@ == old(world).viewsheds@,
            world.names@ == old(world).names@,
            world.blockers@ == old(world).blockers@,
            world.combat_stats@ == old(world).combat_stats@,
            world.wants_melee@ == old(world).wants_melee@,
            world.suffer_damage@ == old(world).suffer_damage@,
            world.items@ == old(world).items@,
            world.healing@ == old(world).healing@,
            world.backpacks@ == old(world).backpacks@,
            world.wants_pickup@ == old(world).wants_pickup@,
            world.wants_use@ == old(world).wants_use@,
            world.wants_drop@ == old(world).wants_drop@,
            world.consumables@ == old(world).consumables@,
            world.ranged@ == old(world).ranged@,
            world.inflicts_damage@ == old(world).inflicts_damage@,
            world.aoe@ == old(world).aoe@,
            world.equippables@ == old(world).equippables@,
            world.equipped@ == old(world).equipped@,
            world.melee_bonuses@ == old(world).melee_bonuses@,
            world.defense_bonuses@ == old(world).defense_bonuses@,
            world.alive@ == old(world).alive@,
            world.pending_delete@ == old(world).pending_delete@,
            world.map == old(world).map,
            world.log == old(world).log,
            world.player == old(world).player,
            world.player_pos == old(world).player_pos,
        decreases nt - ti,
    {
        let t = targets[ti];
        let ghost c0 = world.confusion@;
        world.confusion.insert(t, Confusion { turns });
        proof {
            assert forall|e: int| 0 <= e < old(world).n() implies #[trigger] world.confusion@[e]
                == (if exists|k: int| 0 <= k < ti + 1 && (#[trigger] targets@[k]).id == e {
                Some(Confusion { turns })
            } else {
                old(world).confusion@[e]
            }) by {
                if e == t.id {
                    assert(targets@[ti as int].id == e);
                } else {
                    assert(world.confusion@[e] == c0[e]);
                    assert((exists|k: int| 0 <= k < ti + 1 && (#[trigger] targets@[k]).id == e)
                        == (exists|k: int| 0 <= k < ti && (#[trigger] targets@[k]).id == e));
                }
            }
        }
        ti += 1;
    }
    proof {
        assert forall|e: int| #![trigger world.confusion@[e]] 0 <= e < old(world).n()
            implies (exists|k: int| 0 <= k < nt && (#[trigger] targets@[k]).id == e)
            == targets@.contains(Entity { id: e as usize }) by {
            if exists|k: int| 0 <= k < nt && (#[trigger] targets@[k]).id == e {
                let k = choose|k: int| 0 <= k < nt && (#[trigger] targets@[k]).id == e;
                assert(targets@[k] == Entity { id: e as usize });
            }
            if targets@.contains(Entity { id: e as usize }) {
                let k = choose|k: int| 0 <= k < nt && targets@[k] == Entity { id: e as usize };
                assert(targets@[k].id == e);
            }
        }
    }
}

/// Equip `item` on `target` in `slot`: every item the target already wears
/// in that slot moves back to the target's backpack, then `item` is worn
/// and leaves the backpack. Afterwards `item` is the only item equipped by
/// `target` in `slot` - the old and the new are never worn together.
pub fn apply_equip(world: &mut World, target: Entity, item: Entity, slot: EquipmentSlot)
    requires
        old(world).wf(),
        item.id < old(world).n(),
    ensures
        final(world).wf(),
        final(world).n() == old(world).n(),
        forall|j: int| 0 <= j < old(world).n() ==> #[trigger] final(world).equipped@[j] == (
        if j == item.id {
            Some(Equipped { owner: target, slot })
        } else {
            match old(world).equipped@[j] {
                Some(eq) => if eq.owner == target && eq.slot == slot {
                    None
                } else {
                    Some(eq)
                },
                None => None,
            }
        }),
        forall|j: int| 0 <= j < old(world).n() ==> #[trigger] final(world).backpacks@[j] == (
        if j == item.id {
            None
        } else {
            match old(world).equipped@[j] {
                Some(eq) => if eq.owner == target && eq.slot == slot {
                    Some(InBackpack { owner: target })
                } else {
                    old(world).backpacks@[j]
                },
                None => old(world).backpacks@[j],
            }
        }),
        forall|j: int| 0 <= j < old(world).n() ==> ((#[trigger] final(world).equipped@[j])
            matches Some(eq) && eq.owner == target && eq.slot == slot <==> j == item.id),
        final(world).positions@ == old(world).positions@,
        final(world).renderables@ == old(world).renderables@,
        final(world).players@ == old(world).players@,
        final(world).monsters@ == old(world).monsters@,
        final(world).viewsheds@ == old(world).viewsheds@,
        final(world).names@ == old(world).names@,
        final(world).blockers@ == old(world).blockers@,
        final(world).combat_stats@ == old(world).combat_stats@,
        final(world).wants_melee@ == old(world).wants_melee@,
        final(world).suffer_damage@ == old(world).suffer_damage@,
        final(world).items@ == old(world).items@,
        final(world).healing@ == old(world).healing@,
        final(world).wants_pickup@ == old(world).wants_pickup@,
        final(world).wants_use@ == old(world).wants_use@,
        final(world).wants_drop@ == old(world).wants_drop@,
        final(world).consumables@ == old(world).consumables@,
        final(world).ranged@ == old(world).ranged@,
        final(world).inflicts_damage@ == old(world).inflicts_damage@,
        final(world).aoe@ == old(world).aoe@,
        final(world).confusion@ == old(world).confusion@,
        final(world).equippables@ == old(world).equippables@,
        final(world).melee_bonuses@ == old(world).melee_bonuses@,
        final(world).defense_bonuses@ == old(world).defense_bonuses@,
        final(world).alive@ == old(world).alive@,
        final(world).pending_delete@ == old(world).pending_delete@,
        final(world).map == old(world).map,
        final(world).log == old(world).log,
        final(world).player == old(world).player,
        final(world).player_pos == old(world).player_pos,
{
    let n = world.alive.len();
    let mut j: usize = 0;
    while j < n
        invariant
            world.wf(),
            old(world).wf(),
            n == world.n(),
            n == old(world).n(),
            j <= n,
            item.id < n,
            forall|k: int| 0 <= k < n ==> #[trigger] world.equipped@[k] == (if k < j {
                match old(world).equipped@[k] {
                    Some(eq) => if eq.owner == target && eq.slot == slot {
                        None
                    } else {
                        Some(eq)
                    },
                    None => None,
                }
            } else {
                old(world).equipped@[k]
            }),
            forall|k: int| 0 <= k < n ==> #[trigger] world.backpacks@[k] == (if k < j {
                match old(world).equipped@[k] {
                    Some(eq) => if eq.owner == target && eq.slot == slot {
                        Some(InBackpack { owner: target })
                    } else {
                        old(world).backpacks@[k]
                    },
                    None => old(world).backpacks@[k],
                }
            } else {
                old(world).backpacks@[k]
            }),
            world.positions@ == old(world).positions@,
            world.renderables@ == old(world).renderables@,
            world.players@ == old(world).players@,
            world.monsters@ == old(world).monsters@,
            world.viewsheds@ == old(world).viewsheds@,
            world.names@ == old(world).names@,
            world.blockers@ == old(world).blockers@,
            world.combat_stats@ == old(world).combat_stats@,
            world.wants_melee@ == old(world).wants_melee@,
            world.suffer_damage@ == old(world).suffer_damage@,
            world.items@ == old(world).items@,
            world.healing@ == old(world).healing@,
            world.wants_pickup@ == old(world).wants_pickup@,
            world.wants_use@ == old(world).wants_use@,
            world.wants_drop@ == old(world).wants_drop@,
            world.consumables@ == old(world).consumables@,
            world.ranged@ == old(world).ranged@,
            world.inflicts_damage@ == old(world).inflicts_damage@,
            world.aoe@ == old(world).aoe@,
            world.confusion@ == old(world).confusion@,
            world.equippables@ == old(world).equippables@,
            world.melee_bonuses@ == old(world).melee_bonuses@,
            world.defense_bonuses@ == old(world).defense_bonuses@,
            world.alive@ == old(world).alive@,
            world.pending_delete@ == old(world).pending_delete@,
            world.map == old(world).map,
            world.log == old(world).log,
            world.player == old(world).player,
            world.player_pos == old(world).player_pos,
        decreases n - j,
    {
        let e = Entity { id: j };
        let mut unequip = false;
        match world.equipped.get(e) {
            Some(eq) => {
                if eq.owner.id == target.id && eq.slot == slot {
                    unequip = true;
                }
            }
            None => {}
        }
        proof {
            assert(world.equipped@[j as int] == old(world).equipped@[j as int]);
            assert(unequip == (old(world).equipped@[j as int] matches Some(eq) && eq.owner
                == target && eq.slot == slot));
        }
        if unequip {
            world.equipped.remove(e);
            world.backpacks.insert(e, InBackpack { owner: target });
        }
        j += 1;
    }
    world.equipped.insert(item, Equipped { owner: target, slot });
    world.backpacks.remove(item);
}


/// The positions table after the first `k` pickup intents: each picked
/// item's position is detached.
pub open spec fn pickup_positions(w: &World, k: int) -> Seq<Option<Position>>
    decreases k,
{
    if k <= 0 {
        w.positions@
    } else {
        let pre = pickup_positions(w, k - 1);
        match w.wants_pickup@[k - 1] {
            Some(pk) => if pk.item.id < w.n() {
                pre.update(pk.item.id as int, None)
            } else {
                pre
            },
            None => pre,
        }
    }
}

/// The backpack table after the first `k` pickup intents: each picked item
/// is held by its collector.
pub open spec fn pickup_backpacks(w: &World, k: int) -> Seq<Option<InBackpack>>
    decreases k,
{
    if k <= 0 {
        w.backpacks@
    } else {
        let pre = pickup_backpacks(w, k - 1);
        match w.wants_pickup@[k - 1] {
            Some(pk) => if pk.item.id < w.n() {
                pre.update(pk.item.id as int, Some(InBackpack { owner: pk.collected_by }))
            } else {
                pre
            },
            None => pre,
        }
    }
}

/// The log entries the pickup pass appends: one per item the player picks
/// up.
pub open spec fn pickup_msgs(w: &World, k: int) -> Seq<Seq<char>>
    decreases k,
{
    if k <= 0 {
        Seq::empty()
    } else {
        let pre = pickup_msgs(w, k - 1);
        match w.wants_pickup@[k - 1] {
            Some(pk) => if pk.collected_by == w.player {
                pre.push(
                    "You pick up the "@ + entry(w.names@, pk.item.id as int)->Some_0.name@
                        + "."@,
                )
            } else {
                pre
            },
            None => pre,
        }
    }
}

/// The unwraps of the pickup pass are total: an item the player picks up
/// carries a name.
pub open spec fn pickup_intents_wf(w: &World) -> bool {
    forall|e: int|
        0 <= e < w.n() ==> match #[trigger] w.wants_pickup@[e] {
            Some(pk) => pk.collected_by == w.player ==> entry(w.names@, pk.item.id as int)
                is Some,
            None => true,
        }
}

/// The pickup pass: each intent detaches the item's position and attaches
/// backpack membership under the collector; the player's pickups are
/// logged; all intents are cleared.
pub fn run_item_collection(world: &mut World)
    requires
        old(world).wf(),
        pickup_intents_wf(old(world)),
    ensures
        final(world).wf(),
        final(world).n() == old(world).n(),
        forall|e: int| 0 <= e < final(world).n() ==> final(world).wants_pickup@[e] is None,
        final(world).positions@ == pickup_positions(old(world), old(world).n()),
        final(world).backpacks@ == pickup_backpacks(old(world), old(world).n()),
        log_view(final(world).log.entries@) == log_view(old(world).log.entries@) + pickup_msgs(
            old(world),
            old(world).n(),
        ),
        final(world).renderables@ == old(world).renderables@,
        final(world).players@ == old(world).players@,
        final(world).monsters@ == old(world).monsters@,
        final(world).viewsheds@ == old(world).viewsheds@,
        final(world).names@ == old(world).names@,
        final(world).blockers@ == old(world).blockers@,
        final(world).combat_stats@ == old(world).combat_stats@,
        final(world).wants_melee@ == old(world).wants_melee@,
        final(world).suffer_damage@ == old(world).suffer_damage@,
        final(world).items@ == old(world).items@,
        final(world).healing@ == old(world).healing@,
        final(world).wants_use@ == old(world).wants_use@,
        final(world).wants_drop@ == old(world).wants_drop@,
        final(world).consumables@ == old(world).consumables@,
        final(world).ranged@ == old(world).ranged@,
        final(world).inflicts_damage@ == old(world).inflicts_damage@,
        final(world).aoe@ == old(world).aoe@,
        final(world).confusion@ == old(world).confusion@,
        final(world).equippables@ == old(world).equippables@,
        final(world).equipped@ == old(world).equipped@,
        final(world).melee_bonuses@ == old(world).melee_bonuses@,
        final(world).defense_bonuses@ == old(world).defense_bonuses@,
        final(world).alive@ == old(world).alive@,
        final(world).pending_delete@ == old(world).pending_delete@,
        final(world).map == old(world).map,
        final(world).player == old(world).player,
        final(world).player_pos == old(world).player_pos,
{
    let n = world.alive.len();
    let mut e: usize = 0;
    while e < n
        invariant
            world.wf(),
            old(world).wf(),
            pickup_intents_wf(old(world)),
            n == world.n(),
            n == old(world).n(),
            e <= n,
            world.wants_pickup@ == old(world).wants_pickup@,
            world.positions@ == pickup_positions(old(world), e as int),
            world.backpacks@ == pickup_backpacks(old(world), e as int),
            log_view(world.log.entries@) == log_view(old(world).log.entries@) + pickup_msgs(
                old(world),
                e as int,
            ),
            world.renderables@ == old(world).renderables@,
            world.players@ == old(world).players@,
            world.monsters@ == old(world).monsters@,
            world.viewsheds@ == old(world).viewsheds@,
            world.names@ == old(world).names@,
            world.blockers@ == old(world).blockers@,
            world.combat_stats@ == old(world).combat_stats@,
            world.wants_melee@ == old(world).wants_melee@,
            world.suffer_damage@ == old(world).suffer_damage@,
            world.items@ == old(world).items@,
            world.healing@ == old(world).healing@,
            world.wants_use@ == old(world).wants_use@,
            world.wants_drop@ == old(world).wants_drop@,
            world.consumables@ == old(world).consumables@,
            world.ranged@ == old(world).ranged@,
            world.inflicts_damage@ == old(world).inflicts_damage@,
            world.aoe@ == old(world).aoe@,
            world.confusion@ == old(world).confusion@,
            world.equippables@ == old(world).equippables@,
            world.equipped@ == old(world).equipped@,
            world.melee_bonuses@ == old(world).melee_bonuses@,
            world.defense_bonuses@ == old(world).defense_bonuses@,
            world.alive@ == old(world).alive@,
            world.pending_delete@ == old(world).pending_delete@,
            world.map == old(world).map,
            world.player == old(world).player,
            world.player_pos == old(world).player_pos,
        decreases n - e,
    {
        let ent = Entity { id: e };
        match world.wants_pickup.get(ent) {
            Some(pk) => {
                let pk = *pk;
                world.positions.remove(pk.item);
                world.backpacks.insert(pk.item, InBackpack { owner: pk.collected_by });
                if pk.collected_by.id == world.player.id {
                    proof {
                        assert(pk.collected_by == world.player);
                        reveal_strlit("You pick up the ");
                        reveal_strlit(".");
                    }
                    let nm = world.names.get(pk.item).unwrap().name.clone();
                    let mut msg = String::new();
                    msg.append("You pick up the ");
                    msg.append(nm.as_str());
                    msg.append(".");
                    let ghost mv = msg@;
                    world.log.push(msg);
                    proof {
                        assert(mv =~= "You pick up the "@ + entry(
                            old(world).names@,
                            pk.item.id as int,
                        )->Some_0.name@ + "."@);
                        assert(log_view(world.log.entries@) =~= log_view(old(world).log.entries@)
                            + pickup_msgs(old(world), e + 1));
                    }
                } else {
                    proof {
                        assert(!(pk.collected_by == world.player));
                        assert(pickup_msgs(old(world), e + 1) == pickup_msgs(
                            old(world),
                            e as int,
                        ));
                    }
                }
            }
            None => {
                proof {
                    assert(pickup_positions(old(world), e + 1) == pickup_positions(
                        old(world),
                        e as int,
                    ));
                    assert(pickup_backpacks(old(world), e + 1) == pickup_backpacks(
                        old(world),
                        e as int,
                    ));
                    assert(pickup_msgs(old(world), e + 1) == pickup_msgs(old(world), e as int));
                }
            }
        }
        e += 1;
    }
    world.wants_pickup.clear_all();
}

/// The positions table after the first `k` drop intents: each dropped item
/// takes its dropper's position.
pub open spec fn drop_positions(w: &World, k: int) -> Seq<Option<Position>>
    decreases k,
{
    if k <= 0 {
        w.positions@
    } else {
        let pre = drop_positions(w, k - 1);
        match w.wants_drop@[k - 1] {
            Some(d) => if d.item.id < w.n() {
                pre.update(d.item.id as int, pre[k - 1])
            } else {
                pre
            },
            None => pre,
        }
    }
}

/// The backpack table after the first `k` drop intents.
pub open spec fn drop_backpacks(w: &World, k: int) -> Seq<Option<InBackpack>>
    decreases k,
{
    if k <= 0 {
        w.backpacks@
    } else {
        let pre = drop_backpacks(w, k - 1);
        match w.wants_drop@[k - 1] {
            Some(d) => if d.item.id < w.n() {
                pre.update(d.item.id as int, None)
            } else {
                pre
            },
            None => pre,
        }
    }
}

/// The log entries the drop pass appends: one per item the player drops.
pub open spec fn drop_msgs(w: &World, k: int) -> Seq<Seq<char>>
    decreases k,
{
    if k <= 0 {
        Seq::empty()
    } else {
        let pre = drop_msgs(w, k - 1);
        match w.wants_drop@[k - 1] {
            Some(d) => if k - 1 == w.player.id {
                pre.push("You drop the "@ + entry(w.names@, d.item.id as int)->Some_0.name@ + "."@)
            } else {
                pre
            },
            None => pre,
        }
    }
}

/// Every dropper has a position (dropping from nowhere is a fatal
/// programming error), and items the player drops carry a name.
pub open spec fn drop_intents_wf(w: &World) -> bool {
    forall|e: int|
        0 <= e < w.n() ==> match #[trigger] w.wants_drop@[e] {
            Some(d) => w.positions@[e] is Some && (e == w.player.id ==> entry(
                w.names@,
                d.item.id as int,
            ) is Some),
            None => true,
        }
}

/// The drop pass: each dropped item is placed at its dropper's current
/// position and leaves the backpack; the player's drops are logged; all
/// intents are cleared.
pub fn run_item_drop(world: &mut World)
    requires
        old(world).wf(),
        drop_intents_wf(old(world)),
    ensures
        final(world).wf(),
        final(world).n() == old(world).n(),
        forall|e: int| 0 <= e < final(world).n() ==> final(world).wants_drop@[e] is None,
        final(world).positions@ == drop_positions(old(world), old(world).n()),
        final(world).backpacks@ == drop_backpacks(old(world), old(world).n()),
        log_view(final(world).log.entries@) == log_view(old(world).log.entries@) + drop_msgs(
            old(world),
            old(world).n(),
        ),
        final(world).renderables@ == old(world).renderables@,
        final(world).players@ == old(world).players@,
        final(world).monsters@ == old(world).monsters@,
        final(world).viewsheds@ == old(world).viewsheds@,
        final(world).names@ == old(world).names@,
        final(world).blockers@ == old(world).blockers@,
        final(world).combat_stats@ == old(world).combat_stats@,
        final(world).wants_melee@ == old(world).wants_melee@,
        final(world).suffer_damage@ == old(world).suffer_damage@,
        final(world).items@ == old(world).items@,
        final(world).healing@ == old(world).healing@,
        final(world).wants_pickup@ == old(world).wants_pickup@,
        final(world).wants_use@ == old(world).wants_use@,
        final(world).consumables@ == old(world).consumables@,
        final(world).ranged@ == old(world).ranged@,
        final(world).inflicts_damage@ == old(world).inflicts_damage@,
        final(world).aoe@ == old(world).aoe@,
        final(world).confusion@ == old(world).confusion@,
        final(world).equippables@ == old(world).equippables@,
        final(world).equipped@ == old(world).equipped@,
        final(world).melee_bonuses@ == old(world).melee_bonuses@,
        final(world).defense_bonuses@ == old(world).defense_bonuses@,
        final(world).alive@ == old(world).alive@,
        final(world).pending_delete@ == old(world).pending_delete@,
        final(world).map == old(world).map,
        final(world).player == old(world).player,
        final(world).player_pos == old(world).player_pos,
{
    let n = world.alive.len();
    let mut e: usize = 0;
    while e < n
        invariant
            world.wf(),
            old(world).wf(),
            drop_intents_wf(old(world)),
            n == world.n(),
            n == old(world).n(),
            e <= n,
            world.wants_drop@ == old(world).wants_drop@,
            world.positions@ == drop_positions(old(world), e as int),
            world.backpacks@ == drop_backpacks(old(world), e as int),
            world.player == old(world).player,
            world.names@ == old(world).names@,
            log_view(world.log.entries@) == log_view(old(world).log.entries@) + drop_msgs(
                old(world),
                e as int,
            ),
            world.renderables@ == old(world).renderables@,
            world.players@ == old(world).players@,
            world.monsters@ == old(world).monsters@,
            world.viewsheds@ == old(world).viewsheds@,
            world.names@ == old(world).names@,
            world.blockers@ == old(world).blockers@,
            world.combat_stats@ == old(world).combat_stats@,
            world.wants_melee@ == old(world).wants_melee@,
            world.suffer_damage@ == old(world).suffer_damage@,
            world.items@ == old(world).items@,
            world.healing@ == old(world).healing@,
            world.wants_pickup@ == old(world).wants_pickup@,
            world.wants_use@ == old(world).wants_use@,
            world.consumables@ == old(world).consumables@,
            world.ranged@ == old(world).ranged@,
            world.inflicts_damage@ == old(world).inflicts_damage@,
            world.aoe@ == old(world).aoe@,
            world.confusion@ == old(world).confusion@,
            world.equippables@ == old(world).equippables@,
            world.equipped@ == old(world).equipped@,
            world.melee_bonuses@ == old(world).melee_bonuses@,
            world.defense_bonuses@ == old(world).defense_bonuses@,
            world.alive@ == old(world).alive@,
            world.pending_delete@ == old(world).pending_delete@,
            world.map == old(world).map,
            world.player == old(world).player,
            world.player_pos == old(world).player_pos,
        decreases n - e,
    {
        let ent = Entity { id: e };
        match world.wants_drop.get(ent) {
            Some(d) => {
                let d = *d;
                proof {
                    assert(old(world).wants_drop@[e as int] is Some);
                }
                proof {
                    lemma_drop_positions_some(old(world), e as int);
                    assert(old(world).positions@[e as int] is Some);
                    assert(world.positions@[e as int] is Some);
                }
                let pos = *world.positions.get(ent).unwrap();
                let ghost p0 = world.positions@;
                world.positions.insert(d.item, pos);
                world.backpacks.remove(d.item);
                if e == world.player.id {
                    proof {
                        reveal_strlit("You drop the ");
                        reveal_strlit(".");
                    }
                    let nm = world.names.get(d.item).unwrap().name.clone();
                    let mut msg = String::new();
                    msg.append("You drop the ");
                    msg.append(nm.as_str());
                    msg.append(".");
                    let ghost mv = msg@;
                    world.log.push(msg);
                    proof {
                        assert(mv =~= "You drop the "@ + entry(
                            old(world).names@,
                            d.item.id as int,
                        )->Some_0.name@ + "."@);
                        assert(log_view(world.log.entries@) =~= log_view(old(world).log.entries@)
                            + drop_msgs(old(world), e + 1));
                    }
                } else {
                    proof {
                        assert(drop_msgs(old(world), e + 1) == drop_msgs(old(world), e as int));
                    }
                }
                proof {
                    assert(world.positions@ =~= drop_positions(old(world), e + 1));
                    assert(world.backpacks@ =~= drop_backpacks(old(world), e + 1));
                }
            }
            None => {
                proof {
                    assert(drop_positions(old(world), e + 1) == drop_positions(
                        old(world),
                        e as int,
                    ));
                    assert(drop_backpacks(old(world), e + 1) == drop_backpacks(
                        old(world),
                        e as int,
                    ));
                    assert(drop_msgs(old(world), e + 1) == drop_msgs(old(world), e as int));
                }
            }
        }
        e += 1;
    }
    world.wants_drop.clear_all();
}

/// The folded position table never loses a position: drops only move
/// positions around, so a slot that held one still does.
proof fn lemma_drop_positions_some(w: &World, k: int)
    requires
        w.wf(),
        drop_intents_wf(w),
        0 <= k <= w.n(),
    ensures
        drop_positions(w, k).len() == w.positions@.len(),
        forall|j: int| 0 <= j < w.positions@.len() && w.positions@[j] is Some
            ==> #[trigger] drop_positions(w, k)[j] is Some,
    decreases k,
{
    if k > 0 {
        lemma_drop_positions_some(w, k - 1);
        match w.wants_drop@[k - 1] {
            Some(d) => {
                assert(w.positions@[k - 1] is Some);
            }
            None => {}
        }
    }
}


/// The area radius of an item, when it has one.
pub open spec fn use_radius(w: &World, item: int) -> Option<i32> {
    match entry(w.aoe@, item) {
        Some(a) => Some(a.radius),
        None => None,
    }
}

/// A given target point lies on the map, and an equippable item's use
/// always resolves at least one target (the equip branch reads the first).
pub open spec fn use_intents_wf(w: &World) -> bool {
    forall|e: int|
        0 <= e < w.n() ==> match #[trigger] w.wants_use@[e] {
            Some(ui) => {
                &&& (ui.target matches Some(pt) ==> w.map.in_map(pt.x as int, pt.y as int))
                &&& (entry(w.equippables@, ui.item.id as int) is Some ==> ui.target is None
                    && ui.item.id < w.n() && w.player.id < w.n())
            },
            None => true,
        }
}

/// Append a batch of messages to the log.
fn push_all(gl: &mut crate::gamelog::GameLog, msgs: Vec<String>)
    ensures
        log_view(final(gl).entries@) == log_view(old(gl).entries@) + log_view(msgs@),
{
    let m = msgs.len();
    let mut i: usize = 0;
    while i < m
        invariant
            m == msgs@.len(),
            i <= m,
            log_view(gl.entries@) == log_view(old(gl).entries@) + log_view(
                msgs@.subrange(0, i as int),
            ),
        decreases m - i,
    {
        let s = msgs[i].clone();
        gl.push(s);
        proof {
            assert(msgs@.subrange(0, i + 1).drop_last() =~= msgs@.subrange(0, i as int));
            assert(msgs@.subrange(0, i + 1).last() == msgs@[i as int]);
            assert(log_view(msgs@.subrange(0, i + 1)) =~= log_view(
                msgs@.subrange(0, i as int),
            ).push(msgs@[i as int]@));
            assert(log_view(gl.entries@) =~= log_view(old(gl).entries@) + log_view(
                msgs@.subrange(0, i + 1),
            ));
        }
        i += 1;
    }
    proof {
        assert(msgs@.subrange(0, m as int) =~= msgs@);
    }
}

/// One healing step of the fold, reconciled pointwise.
proof fn lemma_use_stats_step(
    w0: &World,
    k: int,
    ts: Seq<Entity>,
    pre: Seq<Option<CombatStats>>,
    post: Seq<Option<CombatStats>>,
    heal: i32,
)
    requires
        w0.wf(),
        0 <= k < w0.n(),
        w0.wants_use@[k] matches Some(ui) && entry(w0.healing@, ui.item.id as int) matches Some(
            h,
        ) && h.heal_amount == heal,
        pre == use_stats(w0, k),
        pre.len() == w0.n(),
        post.len() == pre.len(),
        forall|t2: int| 0 <= t2 < w0.n() ==> #[trigger] ts.contains(Entity { id: t2 as usize })
            == use_member(w0, k, t2),
        forall|t: int| 0 <= t < pre.len() ==> #[trigger] post[t] == (if ts.contains(
            Entity { id: t as usize },
        ) {
            match pre[t] {
                Some(st) => Some(
                    CombatStats {
                        max_hp: st.max_hp,
                        hp: (if st.max_hp <= crate::damage_system::clamp_i32(st.hp + heal) {
                            st.max_hp as int
                        } else {
                            crate::damage_system::clamp_i32(st.hp + heal)
                        }) as i32,
                        defense: st.defense,
                        power: st.power,
                    },
                ),
                None => None,
            }
        } else {
            pre[t]
        }),
    ensures
        post == use_stats(w0, k + 1),
{
    assert(post =~= use_stats(w0, k + 1));
}

/// One damage step of the fold, reconciled pointwise.
proof fn lemma_use_dmg_step(
    w0: &World,
    k: int,
    ts: Seq<Entity>,
    pre: Seq<Option<SufferDamage>>,
    post: Seq<Option<SufferDamage>>,
    dmg: i32,
)
    requires
        w0.wf(),
        0 <= k < w0.n(),
        w0.wants_use@[k] matches Some(ui) && entry(
            w0.inflicts_damage@,
            ui.item.id as int,
        ) matches Some(d) && d.damage == dmg,
        pre.len() == w0.n(),
        post.len() == pre.len(),
        forall|t: int| 0 <= t < w0.n() ==> {
            &&& sd_amounts(#[trigger] pre[t]) == sd_amounts(w0.suffer_damage@[t]) + use_dmg_upto(
                w0,
                t,
                k,
            )
            &&& (pre[t] is Some <==> (w0.suffer_damage@[t] is Some || use_dmg_upto(
                w0,
                t,
                k,
            ).len() > 0))
        },
        forall|t2: int| 0 <= t2 < w0.n() ==> #[trigger] ts.contains(Entity { id: t2 as usize })
            == use_member(w0, k, t2),
        forall|t: int| 0 <= t < pre.len() ==> sd_amounts(#[trigger] post[t]) == (if ts.contains(
            Entity { id: t as usize },
        ) {
            sd_amounts(pre[t]).push(dmg)
        } else {
            sd_amounts(pre[t])
        }),
        forall|t: int| 0 <= t < pre.len() ==> ((#[trigger] post[t]) is Some <==> (pre[t] is Some
            || ts.contains(Entity { id: t as usize }))),
    ensures
        forall|t: int| 0 <= t < w0.n() ==> {
            &&& sd_amounts(#[trigger] post[t]) == sd_amounts(w0.suffer_damage@[t]) + use_dmg_upto(
                w0,
                t,
                k + 1,
            )
            &&& (post[t] is Some <==> (w0.suffer_damage@[t] is Some || use_dmg_upto(
                w0,
                t,
                k + 1,
            ).len() > 0))
        },
{
    assert forall|t: int| 0 <= t < w0.n() implies {
        &&& sd_amounts(#[trigger] post[t]) == sd_amounts(w0.suffer_damage@[t]) + use_dmg_upto(
            w0,
            t,
            k + 1,
        )
        &&& (post[t] is Some <==> (w0.suffer_damage@[t] is Some || use_dmg_upto(
            w0,
            t,
            k + 1,
        ).len() > 0))
    } by {
        if use_member(w0, k, t) {
            assert(sd_amounts(post[t]) =~= sd_amounts(w0.suffer_damage@[t]) + use_dmg_upto(
                w0,
                t,
                k + 1,
            ));
        } else {
            assert(sd_amounts(post[t]) =~= sd_amounts(w0.suffer_damage@[t]) + use_dmg_upto(
                w0,
                t,
                k + 1,
            ));
        }
    }
}

/// One confusion step of the fold, reconciled pointwise.
proof fn lemma_use_conf_step(
    w0: &World,
    k: int,
    ts: Seq<Entity>,
    pre: Seq<Option<Confusion>>,
    post: Seq<Option<Confusion>>,
    turns: i32,
)
    requires
        w0.wf(),
        0 <= k < w0.n(),
        w0.wants_use@[k] is Some,
        entry(pre, w0.wants_use@[k]->Some_0.item.id as int) matches Some(c) && c.turns == turns,
        pre == use_confusion(w0, k),
        pre.len() == w0.n(),
        post.len() == pre.len(),
        forall|t2: int| 0 <= t2 < w0.n() ==> #[trigger] ts.contains(Entity { id: t2 as usize })
            == use_member(w0, k, t2),
        forall|t: int| 0 <= t < pre.len() ==> #[trigger] post[t] == (if ts.contains(
            Entity { id: t as usize },
        ) {
            Some(Confusion { turns })
        } else {
            pre[t]
        }),
    ensures
        post == use_confusion(w0, k + 1),
{
    assert(post =~= use_confusion(w0, k + 1));
}

/// Whether the ordered member list is empty decides the exists-a-target
/// question.
proof fn lemma_used_flag(ts: Seq<Entity>, w0: &World, k: int, m: int, ordered: Seq<Entity>)
    requires
        forall|t2: int| 0 <= t2 < m ==> #[trigger] ts.contains(Entity { id: t2 as usize })
            == use_member(w0, k, t2),
        0 <= m <= usize::MAX,
        ordered == use_members_upto(w0, k, m),
        ordered == id_filter(ts, m),
        m == w0.n(),
    ensures
        (ordered.len() > 0) == (exists|t: int| #[trigger] use_member(w0, k, t)),
{
    lemma_id_filter_props(ts, m);
    if ordered.len() > 0 {
        let t = ordered[0].id as int;
        assert(ts.contains(ordered[0]));
        assert(ordered[0] == Entity { id: t as usize });
        assert(ts.contains(Entity { id: t as usize }));
        assert(use_member(w0, k, t));
    } else {
        assert forall|t: int| !(#[trigger] use_member(w0, k, t)) by {
            if use_member(w0, k, t) {
                assert(0 <= t < w0.n());
                assert(ts.contains(Entity { id: t as usize }));
                assert(id_filter(ts, m).contains(Entity { id: t as usize }));
            }
        }
    }
}

/// Targeting evaluated in the live world and membership evaluated in the
/// pass's starting world agree: targeting reads only state the pass leaves
/// alone.
proof fn lemma_member_iff(wc: &World, w0: &World, k: int, ts: Seq<Entity>)
    requires
        0 <= k < w0.n(),
        w0.wants_use@[k] is Some,
        wc.map.tile_content@ == w0.map.tile_content@,
        wc.map.tiles@ == w0.map.tiles@,
        wc.map.width == w0.map.width,
        wc.map.height == w0.map.height,
        wc.player == w0.player,
        wc.aoe@ == w0.aoe@,
        wc.n() == w0.n(),
        forall|q: Entity| #[trigger] ts.contains(q) <==> targets_spec(
            wc,
            w0.wants_use@[k]->Some_0.target,
            use_radius(w0, w0.wants_use@[k]->Some_0.item.id as int),
            q,
        ),
    ensures
        forall|t2: int| 0 <= t2 < w0.n() ==> #[trigger] ts.contains(Entity { id: t2 as usize })
            == use_member(w0, k, t2),
{
    let ui = w0.wants_use@[k]->Some_0;
    let radius = use_radius(w0, ui.item.id as int);
    assert forall|t2: int| 0 <= t2 < w0.n() implies #[trigger] ts.contains(
        Entity { id: t2 as usize },
    ) == use_member(w0, k, t2) by {
        if ts.contains(Entity { id: t2 as usize }) {
            assert(targets_spec(wc, ui.target, radius, Entity { id: t2 as usize }));
            lemma_targets_congruent(wc, w0, ui.target, radius, Entity { id: t2 as usize });
        }
        if use_member(w0, k, t2) {
            lemma_targets_congruent(w0, wc, ui.target, radius, Entity { id: t2 as usize });
        }
    }
}

/// One equip step of the fold, reconciled pointwise.
proof fn lemma_use_equip_step(
    w0: &World,
    k: int,
    eq_pre: Seq<Option<Equipped>>,
    bp_pre: Seq<Option<InBackpack>>,
    eq_post: Seq<Option<Equipped>>,
    bp_post: Seq<Option<InBackpack>>,
)
    requires
        w0.wf(),
        0 <= k < w0.n(),
        w0.wants_use@[k] matches Some(ui) && entry(w0.equippables@, ui.item.id as int) is Some
            && ui.item.id < w0.n(),
        (eq_pre, bp_pre) == use_equip_state(w0, k),
        eq_pre.len() == w0.n(),
        bp_pre.len() == w0.n(),
        eq_post.len() == eq_pre.len(),
        bp_post.len() == bp_pre.len(),
        ({
            let ui = w0.wants_use@[k]->Some_0;
            let slot = entry(w0.equippables@, ui.item.id as int)->Some_0.slot;
            let target = w0.player;
            &&& forall|j: int| 0 <= j < eq_pre.len() ==> #[trigger] eq_post[j] == (if j
                == ui.item.id {
                Some(Equipped { owner: target, slot })
            } else {
                match eq_pre[j] {
                    Some(eq) => if eq.owner == target && eq.slot == slot {
                        None
                    } else {
                        Some(eq)
                    },
                    None => None,
                }
            })
            &&& forall|j: int| 0 <= j < bp_pre.len() ==> #[trigger] bp_post[j] == (if j
                == ui.item.id {
                None
            } else {
                match eq_pre[j] {
                    Some(eq) => if eq.owner == target && eq.slot == slot {
                        Some(InBackpack { owner: target })
                    } else {
                        bp_pre[j]
                    },
                    None => bp_pre[j],
                }
            })
        }),
    ensures
        eq_post == use_equip_state(w0, k + 1).0,
        bp_post == use_equip_state(w0, k + 1).1,
{
    assert(eq_post =~= use_equip_state(w0, k + 1).0);
    assert(bp_post =~= use_equip_state(w0, k + 1).1);
}

/// Process the use intent of entity `e`, the step the pass folds: resolve
/// the targets, apply healing, damage, confusion and equip through the
/// exact helpers, log what the player sees, and mark a used consumable for
/// the commit point.
#[verifier::rlimit(100)]
#[verifier::spinoff_prover]
fn use_one_intent(world: &mut World, e: usize, Ghost(w0): Ghost<World>)
    requires
        old(world).wf(),
        w0.wf(),
        occupants_ok(&w0),
        use_intents_wf(&w0),
        e < w0.n(),
        old(world).n() == w0.n(),
        old(world).wants_use@ == w0.wants_use@,
        old(world).combat_stats@ == use_stats(&w0, e as int),
        forall|t: int| 0 <= t < w0.n() ==> {
            &&& sd_amounts(#[trigger] old(world).suffer_damage@[t]) == sd_amounts(
                w0.suffer_damage@[t],
            ) + use_dmg_upto(&w0, t, e as int)
            &&& (old(world).suffer_damage@[t] is Some <==> (w0.suffer_damage@[t] is Some
                || use_dmg_upto(&w0, t, e as int).len() > 0))
        },
        old(world).confusion@ == use_confusion(&w0, e as int),
        old(world).equipped@ == use_equip_state(&w0, e as int).0,
        old(world).backpacks@ == use_equip_state(&w0, e as int).1,
        old(world).pending_delete@ == use_pending(&w0, e as int),
        log_view(old(world).log.entries@) == log_view(w0.log.entries@) + use_msgs(
            &w0,
            e as int,
        ),
        old(world).positions@ == w0.positions@,
        old(world).names@ == w0.names@,
        old(world).healing@ == w0.healing@,
        old(world).inflicts_damage@ == w0.inflicts_damage@,
        old(world).aoe@ == w0.aoe@,
        old(world).equippables@ == w0.equippables@,
        old(world).consumables@ == w0.consumables@,
        old(world).alive@ == w0.alive@,
        old(world).map.tile_content@ == w0.map.tile_content@,
        old(world).map.tiles@ == w0.map.tiles@,
        old(world).map.width == w0.map.width,
        old(world).map.height == w0.map.height,
        old(world).player == w0.player,
    ensures
        final(world).wf(),
        final(world).n() == old(world).n(),
        final(world).wants_use@ == old(world).wants_use@,
        final(world).combat_stats@ == use_stats(&w0, e + 1),
        forall|t: int| 0 <= t < w0.n() ==> {
            &&& sd_amounts(#[trigger] final(world).suffer_damage@[t]) == sd_amounts(
                w0.suffer_damage@[t],
            ) + use_dmg_upto(&w0, t, e + 1)
            &&& (final(world).suffer_damage@[t] is Some <==> (w0.suffer_damage@[t] is Some
                || use_dmg_upto(&w0, t, e + 1).len() > 0))
        },
        final(world).confusion@ == use_confusion(&w0, e + 1),
        final(world).equipped@ == use_equip_state(&w0, e + 1).0,
        final(world).backpacks@ == use_equip_state(&w0, e + 1).1,
        final(world).pending_delete@ == use_pending(&w0, e + 1),
        log_view(final(world).log.entries@) == log_view(w0.log.entries@) + use_msgs(
            &w0,
            e + 1,
        ),
        final(world).positions@ == old(world).positions@,
        final(world).renderables@ == old(world).renderables@,
        final(world).players@ == old(world).players@,
        final(world).monsters@ == old(world).monsters@,
        final(world).viewsheds@ == old(world).viewsheds@,
        final(world).names@ == old(world).names@,
        final(world).blockers@ == old(world).blockers@,
        final(world).wants_melee@ == old(world).wants_melee@,
        final(world).items@ == old(world).items@,
        final(world).healing@ == old(world).healing@,
        final(world).wants_pickup@ == old(world).wants_pickup@,
        final(world).wants_drop@ == old(world).wants_drop@,
        final(world).consumables@ == old(world).consumables@,
        final(world).ranged@ == old(world).ranged@,
        final(world).inflicts_damage@ == old(world).inflicts_damage@,
        final(world).aoe@ == old(world).aoe@,
        final(world).equippables@ == old(world).equippables@,
        final(world).melee_bonuses@ == old(world).melee_bonuses@,
        final(world).defense_bonuses@ == old(world).defense_bonuses@,
        final(world).alive@ == old(world).alive@,
        final(world).map == old(world).map,
        final(world).player == old(world).player,
        final(world).player_pos == old(world).player_pos,
{
    let ghost k = e as int;
    let user = Entity { id: e };
    let intent = world.wants_use.get(user);
    match intent {
        None => {
            proof {
                assert(w0.wants_use@[k] is None);
                assert(use_stats(&w0, k + 1) == use_stats(&w0, k));
                assert(use_confusion(&w0, k + 1) == use_confusion(&w0, k));
                assert(use_equip_state(&w0, k + 1) == use_equip_state(&w0, k));
                assert(use_pending(&w0, k + 1) == use_pending(&w0, k));
                assert(forall|t: int| 0 <= t < w0.n() ==> #[trigger] use_dmg_upto(&w0, t, k + 1)
                    == use_dmg_upto(&w0, t, k));
                reveal(use_msgs_for);
                assert(log_view(world.log.entries@) =~= log_view(w0.log.entries@) + use_msgs(
                    &w0,
                    k + 1,
                ));
            }
        }
        Some(ui) => {
            let ui = *ui;
            let item = ui.item;
            proof {
                assert(w0.wants_use@[k] == Some(ui));
            }
            let radius: Option<i32> = match world.aoe.get(item) {
                Some(a) => Some(a.radius),
                None => None,
            };
            proof {
                assert(radius == use_radius(&w0, item.id as int));
                assert(occupants_ok(world)) by {
                    assert(world.map.tile_content@ == w0.map.tile_content@);
                }
                assert(ui.target matches Some(pt) ==> world.map.in_map(
                    pt.x as int,
                    pt.y as int,
                ));
                match radius {
                    Some(rad) => {
                        assert(w0.aoe@[item.id as int] matches Some(a) && a.radius == rad);
                        assert(rad >= 0);
                    }
                    None => {}
                }
            }
            let targets = resolve_targets(world, ui.target, radius);
            let n = world.alive.len();
            let ordered = order_targets(n, &targets);
            proof {
                lemma_id_filter_props(targets@, n as int);
                lemma_member_iff(world, &w0, k, targets@);
                lemma_members_agree(targets@, &w0, k, n as int);
                assert(ordered@ == use_members_upto(&w0, k, n as int));
            }
            let is_player = e == world.player.id;
            let item_name: Option<Name> = match world.names.get(item) {
                Some(nm) => Some(Name { name: nm.name.clone() }),
                None => None,
            };
            proof {
                assert(match item_name {
                    Some(nm) => entry(w0.names@, item.id as int) == Some(nm),
                    None => entry(w0.names@, item.id as int) is None,
                });
            }
            let ghost base0 = log_view(w0.log.entries@) + use_msgs(&w0, k);

            // healing: raise every target's hit points, clamped at max_hp
            match world.healing.get(item) {
                Some(h) => {
                    let heal = h.heal_amount;
                    proof {
                        assert(entry(w0.healing@, item.id as int) == Some(*h));
                    }
                    let ghost s0 = world.combat_stats@;
                    apply_healing(world, &targets, heal);
                    proof {
                        lemma_use_stats_step(&w0, k, targets@, s0, world.combat_stats@, heal);
                    }
                    if is_player {
                        match &item_name {
                            Some(nm) => {
                                let msg_text = drink_message(&nm.name, heal);
                                let mut msgs: Vec<String> = Vec::new();
                                let mut t: usize = 0;
                                while t < n
                                    invariant
                                        t <= n,
                                        n == w0.n(),
                                        world.wf(),
                                        w0.wf(),
                                        e < w0.n(),
                                        w0.wants_use@[e as int] == Some(ui),
                                        item == ui.item,
                                        entry(w0.healing@, item.id as int) is Some,
                                        entry(w0.names@, item.id as int) == Some(*nm),
                                        msg_text@ == drink_msg(
                                            nm.name@,
                                            entry(
                                                w0.healing@,
                                                item.id as int,
                                            )->Some_0.heal_amount as int,
                                        ),
                                        world.combat_stats@ == use_stats(&w0, e + 1),
                                        world.combat_stats@.len() == w0.n(),
                                        forall|t2: int| 0 <= t2 < n
                                            ==> #[trigger] targets@.contains(
                                            Entity { id: t2 as usize },
                                        ) == use_member(&w0, e as int, t2),
                                        log_view(msgs@) == heal_msgs_upto(
                                            &w0,
                                            e as int,
                                            t as int,
                                        ),
                                    decreases n - t,
                                {
                                    let tgt = Entity { id: t };
                                    let member = entity_in(&targets, tgt);
                                    if member && world.combat_stats.has(tgt) {
                                        proof {
                                            lemma_use_stats_presence(&w0, e + 1);
                                            assert(w0.combat_stats@[t as int] is Some);
                                        }
                                        msgs.push(msg_text.clone());
                                        proof {
                                            assert(log_view(msgs@) =~= heal_msgs_upto(
                                                &w0,
                                                e as int,
                                                t + 1,
                                            ));
                                        }
                                    } else {
                                        proof {
                                            lemma_use_stats_presence(&w0, e + 1);
                                            assert(heal_msgs_upto(&w0, e as int, t + 1)
                                                == heal_msgs_upto(&w0, e as int, t as int));
                                        }
                                    }
                                    t += 1;
                                }
                                push_all(&mut world.log, msgs);
                            }
                            None => {}
                        }
                    }
                }
                None => {
                    proof {
                        assert(use_stats(&w0, k + 1) == use_stats(&w0, k));
                    }
                }
            }
            proof {
                assert(log_view(world.log.entries@) =~= base0 + use_heal_part(&w0, k));
            }

            // damage: append the amount to every target's accrual
            let mut used = true;
            match world.inflicts_damage.get(item) {
                Some(d) => {
                    let dmg = d.damage;
                    proof {
                        assert(entry(w0.inflicts_damage@, item.id as int) == Some(*d));
                        assert(world.damage_ok());
                        assert(world.inflicts_damage@[item.id as int] matches Some(dd)
                            && dd.damage >= 0);
                    }
                    let ghost sd0 = world.suffer_damage@;
                    apply_inflict(world, &targets, dmg);
                    used = ordered.len() > 0;
                    proof {
                        lemma_use_dmg_step(&w0, k, targets@, sd0, world.suffer_damage@, dmg);
                        lemma_used_flag(targets@, &w0, k, n as int, ordered@);
                        assert(used == (exists|t: int| #[trigger] use_member(&w0, k, t)));
                    }
                    if is_player {
                        match &item_name {
                            Some(nm) => {
                                let mut msgs: Vec<String> = Vec::new();
                                let mut t: usize = 0;
                                while t < n
                                    invariant
                                        t <= n,
                                        n == w0.n(),
                                        world.wf(),
                                        w0.wf(),
                                        e < w0.n(),
                                        w0.wants_use@[e as int] == Some(ui),
                                        item == ui.item,
                                        dmg == entry(
                                            w0.inflicts_damage@,
                                            item.id as int,
                                        )->Some_0.damage,
                                        entry(w0.inflicts_damage@, item.id as int) is Some,
                                        entry(w0.names@, item.id as int) == Some(*nm),
                                        world.names@ == w0.names@,
                                        forall|t2: int| 0 <= t2 < n
                                            ==> #[trigger] targets@.contains(
                                            Entity { id: t2 as usize },
                                        ) == use_member(&w0, e as int, t2),
                                        log_view(msgs@) == dmg_msgs_upto(
                                            &w0,
                                            e as int,
                                            t as int,
                                        ),
                                    decreases n - t,
                                {
                                    let tgt = Entity { id: t };
                                    let member = entity_in(&targets, tgt);
                                    let mob_name: Option<Name> = match world.names.get(tgt) {
                                        Some(mob) => Some(Name { name: mob.name.clone() }),
                                        None => None,
                                    };
                                    match &mob_name {
                                        Some(mob) => {
                                            proof {
                                                assert(w0.names@[t as int] matches Some(m2)
                                                    && m2.name@ == mob.name@);
                                            }
                                            if member {
                                                let msg = inflict_message(
                                                    &nm.name,
                                                    &mob.name,
                                                    dmg,
                                                );
                                                msgs.push(msg);
                                                proof {
                                                    assert(log_view(msgs@) =~= dmg_msgs_upto(
                                                        &w0,
                                                        e as int,
                                                        t + 1,
                                                    ));
                                                }
                                            } else {
                                                proof {
                                                    assert(dmg_msgs_upto(&w0, e as int, t + 1)
                                                        == dmg_msgs_upto(
                                                        &w0,
                                                        e as int,
                                                        t as int,
                                                    ));
                                                }
                                            }
                                        }
                                        None => {
                                            proof {
                                                assert(w0.names@[t as int] is None);
                                                assert(dmg_msgs_upto(&w0, e as int, t + 1)
                                                    == dmg_msgs_upto(&w0, e as int, t as int));
                                            }
                                        }
                                    }
                                    t += 1;
                                }
                                push_all(&mut world.log, msgs);
                            }
                            None => {}
                        }
                    }
                }
                None => {
                    proof {
                        assert(forall|t: int| 0 <= t < w0.n() ==> #[trigger] use_dmg_upto(
                            &w0,
                            t,
                            k + 1,
                        ) == use_dmg_upto(&w0, t, k));
                    }
                }
            }
            proof {
                assert(log_view(world.log.entries@) =~= base0 + use_heal_part(&w0, k)
                    + use_dmg_part(&w0, k));
                assert(used == use_used_mid(&w0, k));
            }
            use_one_intent_tail(world, e, Ghost(w0), used);
        }
    }
}

/// The second half of one use-intent step: confusion, equip, consumption
/// and the assembled log.
#[verifier::rlimit(100)]
#[verifier::spinoff_prover]
fn use_one_intent_tail(world: &mut World, e: usize, Ghost(w0): Ghost<World>, used_in: bool)
    requires
        old(world).wf(),
        w0.wf(),
        occupants_ok(&w0),
        use_intents_wf(&w0),
        e < w0.n(),
        old(world).n() == w0.n(),
        old(world).wants_use@ == w0.wants_use@,
        w0.wants_use@[e as int] is Some,
        used_in == use_used_mid(&w0, e as int),
        old(world).combat_stats@ == use_stats(&w0, e + 1),
        forall|t: int| 0 <= t < w0.n() ==> {
            &&& sd_amounts(#[trigger] old(world).suffer_damage@[t]) == sd_amounts(
                w0.suffer_damage@[t],
            ) + use_dmg_upto(&w0, t, e + 1)
            &&& (old(world).suffer_damage@[t] is Some <==> (w0.suffer_damage@[t] is Some
                || use_dmg_upto(&w0, t, e + 1).len() > 0))
        },
        old(world).confusion@ == use_confusion(&w0, e as int),
        old(world).equipped@ == use_equip_state(&w0, e as int).0,
        old(world).backpacks@ == use_equip_state(&w0, e as int).1,
        old(world).pending_delete@ == use_pending(&w0, e as int),
        log_view(old(world).log.entries@) == log_view(w0.log.entries@) + use_msgs(
            &w0,
            e as int,
        ) + use_heal_part(&w0, e as int) + use_dmg_part(&w0, e as int),
        old(world).positions@ == w0.positions@,
        old(world).names@ == w0.names@,
        old(world).healing@ == w0.healing@,
        old(world).inflicts_damage@ == w0.inflicts_damage@,
        old(world).aoe@ == w0.aoe@,
        old(world).equippables@ == w0.equippables@,
        old(world).consumables@ == w0.consumables@,
        old(world).alive@ == w0.alive@,
        old(world).map.tile_content@ == w0.map.tile_content@,
        old(world).map.tiles@ == w0.map.tiles@,
        old(world).map.width == w0.map.width,
        old(world).map.height == w0.map.height,
        old(world).player == w0.player,
    ensures
        final(world).wf(),
        final(world).n() == old(world).n(),
        final(world).wants_use@ == old(world).wants_use@,
        final(world).combat_stats@ == use_stats(&w0, e + 1),
        forall|t: int| 0 <= t < w0.n() ==> {
            &&& sd_amounts(#[trigger] final(world).suffer_damage@[t]) == sd_amounts(
                w0.suffer_damage@[t],
            ) + use_dmg_upto(&w0, t, e + 1)
            &&& (final(world).suffer_damage@[t] is Some <==> (w0.suffer_damage@[t] is Some
                || use_dmg_upto(&w0, t, e + 1).len() > 0))
        },
        final(world).confusion@ == use_confusion(&w0, e + 1),
        final(world).equipped@ == use_equip_state(&w0, e + 1).0,
        final(world).backpacks@ == use_equip_state(&w0, e + 1).1,
        final(world).pending_delete@ == use_pending(&w0, e + 1),
        log_view(final(world).log.entries@) == log_view(w0.log.entries@) + use_msgs(
            &w0,
            e + 1,
        ),
        final(world).positions@ == old(world).positions@,
        final(world).renderables@ == old(world).renderables@,
        final(world).players@ == old(world).players@,
        final(world).monsters@ == old(world).monsters@,
        final(world).viewsheds@ == old(world).viewsheds@,
        final(world).names@ == old(world).names@,
        final(world).blockers@ == old(world).blockers@,
        final(world).wants_melee@ == old(world).wants_melee@,
        final(world).items@ == old(world).items@,
        final(world).healing@ == old(world).healing@,
        final(world).wants_pickup@ == old(world).wants_pickup@,
        final(world).wants_drop@ == old(world).wants_drop@,
        final(world).consumables@ == old(world).consumables@,
        final(world).ranged@ == old(world).ranged@,
        final(world).inflicts_damage@ == old(world).inflicts_damage@,
        final(world).aoe@ == old(world).aoe@,
        final(world).equippables@ == old(world).equippables@,
        final(world).melee_bonuses@ == old(world).melee_bonuses@,
        final(world).defense_bonuses@ == old(world).defense_bonuses@,
        final(world).alive@ == old(world).alive@,
        final(world).map == old(world).map,
        final(world).player == old(world).player,
        final(world).player_pos == old(world).player_pos,
{
    let ghost k = e as int;
    let user = Entity { id: e };
    let ui = *world.wants_use.get(user).unwrap();
    let item = ui.item;
    proof {
        assert(w0.wants_use@[k] == Some(ui));
    }
    let radius: Option<i32> = match world.aoe.get(item) {
        Some(a) => Some(a.radius),
        None => None,
    };
    proof {
        assert(radius == use_radius(&w0, item.id as int));
        assert(occupants_ok(world)) by {
            assert(world.map.tile_content@ == w0.map.tile_content@);
        }
        assert(ui.target matches Some(pt) ==> world.map.in_map(pt.x as int, pt.y as int));
        match radius {
            Some(rad) => {
                assert(world.aoe@[item.id as int] matches Some(a) && a.radius == rad);
                assert(rad >= 0);
            }
            None => {}
        }
    }
    let targets = resolve_targets(world, ui.target, radius);
    let n = world.alive.len();
    let ordered = order_targets(n, &targets);
    proof {
        lemma_id_filter_props(targets@, n as int);
        lemma_member_iff(world, &w0, k, targets@);
        lemma_members_agree(targets@, &w0, k, n as int);
        assert(ordered@ == use_members_upto(&w0, k, n as int));
    }
    let is_player = e == world.player.id;
    let item_name: Option<Name> = match world.names.get(item) {
        Some(nm) => Some(Name { name: nm.name.clone() }),
        None => None,
    };
    proof {
        assert(match item_name {
            Some(nm) => entry(w0.names@, item.id as int) == Some(nm),
            None => entry(w0.names@, item.id as int) is None,
        });
    }
    let ghost base0 = log_view(w0.log.entries@) + use_msgs(&w0, k) + use_heal_part(&w0, k)
        + use_dmg_part(&w0, k);
    let mut used = used_in;

            // confusion: the two-phase buffer collapses to a per-target
            // overwrite with the item's turn count, read from the live store
            let conf_read: Option<i32> = match world.confusion.get(item) {
                Some(c) => Some(c.turns),
                None => None,
            };
            proof {
                assert(conf_read == (match entry(use_confusion(&w0, k), item.id as int) {
                    Some(c) => Some(c.turns),
                    None => None::<i32>,
                }));
            }
            match conf_read {
                Some(turns) => {
                    let ghost c0 = world.confusion@;
                    apply_confusion(world, &targets, turns);
                    used = ordered.len() > 0;
                    proof {
                        lemma_use_conf_step(&w0, k, targets@, c0, world.confusion@, turns);
                        lemma_used_flag(targets@, &w0, k, n as int, ordered@);
                        assert(used == (exists|t: int| #[trigger] use_member(&w0, k, t)));
                    }
                    if is_player {
                        match &item_name {
                            Some(nm) => {
                                let mut msgs: Vec<String> = Vec::new();
                                let mut t: usize = 0;
                                while t < n
                                    invariant
                                        t <= n,
                                        n == w0.n(),
                                        world.wf(),
                                        w0.wf(),
                                        e < w0.n(),
                                        w0.wants_use@[e as int] == Some(ui),
                                        item == ui.item,
                                        entry(w0.names@, item.id as int) == Some(*nm),
                                        world.names@ == w0.names@,
                                        forall|t2: int| 0 <= t2 < n
                                            ==> #[trigger] targets@.contains(
                                            Entity { id: t2 as usize },
                                        ) == use_member(&w0, e as int, t2),
                                        log_view(msgs@) == conf_msgs_upto(
                                            &w0,
                                            e as int,
                                            t as int,
                                        ),
                                    decreases n - t,
                                {
                                    let tgt = Entity { id: t };
                                    let member = entity_in(&targets, tgt);
                                    let mob_name: Option<Name> = match world.names.get(tgt) {
                                        Some(mob) => Some(Name { name: mob.name.clone() }),
                                        None => None,
                                    };
                                    match &mob_name {
                                        Some(mob) => {
                                            proof {
                                                assert(w0.names@[t as int] matches Some(m2)
                                                    && m2.name@ == mob.name@);
                                            }
                                            if member {
                                                let msg = confuse_message(&nm.name, &mob.name);
                                                msgs.push(msg);
                                                proof {
                                                    assert(log_view(msgs@) =~= conf_msgs_upto(
                                                        &w0,
                                                        e as int,
                                                        t + 1,
                                                    ));
                                                }
                                            } else {
                                                proof {
                                                    assert(conf_msgs_upto(&w0, e as int, t + 1)
                                                        == conf_msgs_upto(
                                                        &w0,
                                                        e as int,
                                                        t as int,
                                                    ));
                                                }
                                            }
                                        }
                                        None => {
                                            proof {
                                                assert(w0.names@[t as int] is None);
                                                assert(conf_msgs_upto(&w0, e as int, t + 1)
                                                    == conf_msgs_upto(&w0, e as int, t as int));
                                            }
                                        }
                                    }
                                    t += 1;
                                }
                                push_all(&mut world.log, msgs);
                            }
                            None => {}
                        }
                    }
                }
                None => {
                    proof {
                        assert(use_confusion(&w0, k + 1) == use_confusion(&w0, k));
                    }
                }
            }

            // equip: log the player's swaps over the live tables, then move
            // the same-slot items back to the backpack and wear this one
            match world.equippables.get(item) {
                Some(eqp) => {
                    let slot = eqp.slot;
                    proof {
                        assert(entry(w0.equippables@, item.id as int) == Some(*eqp));
                        assert(ui.target is None && item.id < w0.n() && w0.player.id < w0.n());
                        assert(use_member(&w0, k, w0.player.id as int));
                        lemma_id_filter_member(targets@, &w0, k, n as int, w0.player.id as int);
                        assert(use_members_upto(&w0, k, n as int).contains(
                            Entity { id: w0.player.id },
                        ));
                        assert(ordered@.len() > 0);
                        assert(use_member(&w0, k, ordered@[0].id as int));
                        assert(ordered@[0] == w0.player);
                    }
                    let first = ordered[0];
                    let mut msgs: Vec<String> = Vec::new();
                    let mut j: usize = 0;
                    while j < n
                        invariant
                            j <= n,
                            n == w0.n(),
                            world.wf(),
                            w0.wf(),
                            e < w0.n(),
                            w0.wants_use@[e as int] == Some(ui),
                            item == ui.item,
                            slot == entry(w0.equippables@, item.id as int)->Some_0.slot,
                            world.names@ == w0.names@,
                            world.player == w0.player,
                            world.equipped@ == use_equip_state(&w0, e as int).0,
                            world.equipped@.len() == w0.n(),
                            log_view(msgs@) == unequip_msgs_upto(&w0, e as int, j as int),
                        decreases n - j,
                    {
                        let worn = Entity { id: j };
                        let mut swap_out = false;
                        match world.equipped.get(worn) {
                            Some(eq) => {
                                if eq.owner.id == world.player.id && eq.slot == slot {
                                    swap_out = true;
                                }
                            }
                            None => {}
                        }
                        if swap_out {
                            let worn_name: Option<Name> = match world.names.get(worn) {
                                Some(wn) => Some(Name { name: wn.name.clone() }),
                                None => None,
                            };
                            match &worn_name {
                                Some(wn) => {
                                    proof {
                                        assert(w0.names@[j as int] matches Some(m2) && m2.name@
                                            == wn.name@);
                                    }
                                    let msg = unequip_message(&wn.name);
                                    msgs.push(msg);
                                    proof {
                                        assert(log_view(msgs@) =~= unequip_msgs_upto(
                                            &w0,
                                            e as int,
                                            j + 1,
                                        ));
                                    }
                                }
                                None => {
                                    proof {
                                        assert(w0.names@[j as int] is None);
                                        assert(unequip_msgs_upto(&w0, e as int, j + 1)
                                            == unequip_msgs_upto(&w0, e as int, j as int));
                                    }
                                }
                            }
                        } else {
                            proof {
                                assert(unequip_msgs_upto(&w0, e as int, j + 1)
                                    == unequip_msgs_upto(&w0, e as int, j as int));
                            }
                        }
                        j += 1;
                    }
                    let ghost unequip_part = log_view(msgs@);
                    match &item_name {
                        Some(nm) => {
                            let msg = equip_message(&nm.name);
                            msgs.push(msg);
                            proof {
                                assert(log_view(msgs@) =~= unequip_part.push(
                                    equip_msg(nm.name@),
                                ));
                            }
                        }
                        None => {}
                    }
                    push_all(&mut world.log, msgs);
                    let ghost eq0 = world.equipped@;
                    let ghost bp0 = world.backpacks@;
                    apply_equip(world, first, item, slot);
                    proof {
                        lemma_use_equip_step(
                            &w0,
                            k,
                            eq0,
                            bp0,
                            world.equipped@,
                            world.backpacks@,
                        );
                    }
                }
                None => {
                    proof {
                        assert(use_equip_state(&w0, k + 1) == use_equip_state(&w0, k));
                    }
                }
            }

            // consumption: a used consumable is marked for the commit point
            proof {
                assert(used == use_used(&w0, k));
            }
            if used {
                if world.consumables.has(item) {
                    world.mark_delete(item);
                    proof {
                        assert(entry(w0.consumables@, item.id as int) is Some);
                        if item.id < world.n() {
                            assert(world.pending_delete@ =~= use_pending(&w0, k + 1));
                        } else {
                            assert(world.pending_delete@ =~= use_pending(&w0, k + 1));
                        }
                    }
                } else {
                    proof {
                        assert(use_pending(&w0, k + 1) == use_pending(&w0, k));
                    }
                }
            } else {
                proof {
                    assert(use_pending(&w0, k + 1) == use_pending(&w0, k));
                }
            }

    proof {
        reveal(use_msgs_for);
        assert(log_view(world.log.entries@) =~= log_view(w0.log.entries@) + use_msgs(
            &w0,
            k + 1,
        )) by {
            reveal(use_msgs_for);
            assert(use_msgs(&w0, k + 1) == use_msgs(&w0, k) + use_msgs_for(&w0, k));
        }
    }
}

/// The two membership readings agree: the ordered member list of the
/// resolved target vector is the fold over identifiers.
proof fn lemma_members_agree(ts: Seq<Entity>, w: &World, k: int, m: int)
    requires
        forall|t: int| 0 <= t < m ==> #[trigger] ts.contains(Entity { id: t as usize })
            == use_member(w, k, t),
        0 <= m,
    ensures
        id_filter(ts, m) == use_members_upto(w, k, m),
    decreases m,
{
    if m > 0 {
        lemma_members_agree(ts, w, k, m - 1);
    }
}

/// Membership in the ordered list coincides with the membership predicate.
proof fn lemma_id_filter_member(ts: Seq<Entity>, w: &World, k: int, m: int, t: int)
    requires
        forall|t2: int| 0 <= t2 < m ==> #[trigger] ts.contains(Entity { id: t2 as usize })
            == use_member(w, k, t2),
        0 <= m <= usize::MAX,
        0 <= t <= usize::MAX,
    ensures
        0 <= t < m && use_member(w, k, t) ==> id_filter(ts, m).contains(
            Entity { id: t as usize },
        ),
        id_filter(ts, m).contains(Entity { id: t as usize }) ==> 0 <= t < m && use_member(
            w,
            k,
            t,
        ),
    decreases m,
{
    lemma_id_filter_props(ts, m);
    if 0 <= t < m && use_member(w, k, t) {
        assert(ts.contains(Entity { id: t as usize }));
    }
    if id_filter(ts, m).contains(Entity { id: t as usize }) {
        let i = choose|i: int|
            0 <= i < id_filter(ts, m).len() && id_filter(ts, m)[i] == Entity { id: t as usize };
        assert(ts.contains(Entity { id: t as usize }));
    }
}

/// The use pass. Each intent is resolved in entity order: targeting picks
/// self, one tile's occupants, or the clipped blast disc's occupants;
/// healing, damage, confusion and equip apply through the exact helpers;
/// the player's actions are logged; each used consumable is marked for the
/// commit point; and all use intents are cleared at the end.
#[verifier::rlimit(100)]
#[verifier::spinoff_prover]
pub fn run_item_use(world: &mut World)
    requires
        old(world).wf(),
        occupants_ok(old(world)),
        use_intents_wf(old(world)),
    ensures
        final(world).wf(),
        final(world).n() == old(world).n(),
        forall|e: int| 0 <= e < final(world).n() ==> final(world).wants_use@[e] is None,
        final(world).combat_stats@ == use_stats(old(world), old(world).n() as int),
        forall|t: int| 0 <= t < old(world).n() ==> {
            &&& sd_amounts(#[trigger] final(world).suffer_damage@[t]) == sd_amounts(
                old(world).suffer_damage@[t],
            ) + use_dmg_upto(old(world), t, old(world).n() as int)
            &&& (final(world).suffer_damage@[t] is Some <==> (old(world).suffer_damage@[t]
                is Some || use_dmg_upto(old(world), t, old(world).n() as int).len() > 0))
        },
        final(world).confusion@ == use_confusion(old(world), old(world).n() as int),
        final(world).equipped@ == use_equip_state(old(world), old(world).n() as int).0,
        final(world).backpacks@ == use_equip_state(old(world), old(world).n() as int).1,
        final(world).pending_delete@ == use_pending(old(world), old(world).n() as int),
        log_view(final(world).log.entries@) == log_view(old(world).log.entries@) + use_msgs(
            old(world),
            old(world).n() as int,
        ),
        final(world).positions@ == old(world).positions@,
        final(world).renderables@ == old(world).renderables@,
        final(world).players@ == old(world).players@,
        final(world).monsters@ == old(world).monsters@,
        final(world).viewsheds@ == old(world).viewsheds@,
        final(world).names@ == old(world).names@,
        final(world).blockers@ == old(world).blockers@,
        final(world).wants_melee@ == old(world).wants_melee@,
        final(world).items@ == old(world).items@,
        final(world).healing@ == old(world).healing@,
        final(world).wants_pickup@ == old(world).wants_pickup@,
        final(world).wants_drop@ == old(world).wants_drop@,
        final(world).consumables@ == old(world).consumables@,
        final(world).ranged@ == old(world).ranged@,
        final(world).inflicts_damage@ == old(world).inflicts_damage@,
        final(world).aoe@ == old(world).aoe@,
        final(world).equippables@ == old(world).equippables@,
        final(world).melee_bonuses@ == old(world).melee_bonuses@,
        final(world).defense_bonuses@ == old(world).defense_bonuses@,
        final(world).alive@ == old(world).alive@,
        final(world).map == old(world).map,
        final(world).player == old(world).player,
        final(world).player_pos == old(world).player_pos,
{
    let ghost w0 = *old(world);
    let n = world.alive.len();
    proof {
        assert(log_view(world.log.entries@) =~= log_view(w0.log.entries@) + use_msgs(&w0, 0));
        assert(forall|t: int| 0 <= t < w0.n() ==> #[trigger] sd_amounts(
            world.suffer_damage@[t],
        ) =~= sd_amounts(w0.suffer_damage@[t]) + use_dmg_upto(&w0, t, 0));
    }
    let mut e: usize = 0;
    while e < n
        invariant
            world.wf(),
            w0.wf(),
            occupants_ok(&w0),
            use_intents_wf(&w0),
            n == w0.n(),
            world.n() == w0.n(),
            e <= n,
            world.wants_use@ == w0.wants_use@,
            world.combat_stats@ == use_stats(&w0, e as int),
            forall|t: int| 0 <= t < w0.n() ==> {
                &&& sd_amounts(#[trigger] world.suffer_damage@[t]) == sd_amounts(
                    w0.suffer_damage@[t],
                ) + use_dmg_upto(&w0, t, e as int)
                &&& (world.suffer_damage@[t] is Some <==> (w0.suffer_damage@[t] is Some
                    || use_dmg_upto(&w0, t, e as int).len() > 0))
            },
            world.confusion@ == use_confusion(&w0, e as int),
            world.equipped@ == use_equip_state(&w0, e as int).0,
            world.backpacks@ == use_equip_state(&w0, e as int).1,
            world.pending_delete@ == use_pending(&w0, e as int),
            log_view(world.log.entries@) == log_view(w0.log.entries@) + use_msgs(&w0, e as int),
            world.positions@ == w0.positions@,
            world.renderables@ == w0.renderables@,
            world.players@ == w0.players@,
            world.monsters@ == w0.monsters@,
            world.viewsheds@ == w0.viewsheds@,
            world.names@ == w0.names@,
            world.blockers@ == w0.blockers@,
            world.wants_melee@ == w0.wants_melee@,
            world.items@ == w0.items@,
            world.healing@ == w0.healing@,
            world.wants_pickup@ == w0.wants_pickup@,
            world.wants_drop@ == w0.wants_drop@,
            world.consumables@ == w0.consumables@,
            world.ranged@ == w0.ranged@,
            world.inflicts_damage@ == w0.inflicts_damage@,
            world.aoe@ == w0.aoe@,
            world.equippables@ == w0.equippables@,
            world.melee_bonuses@ == w0.melee_bonuses@,
            world.defense_bonuses@ == w0.defense_bonuses@,
            world.alive@ == w0.alive@,
            world.map == w0.map,
            world.player == w0.player,
            world.player_pos == w0.player_pos,
        decreases n - e,
    {
        use_one_intent(world, e, Ghost(w0));
        e += 1;
    }
    world.wants_use.clear_all();
}




/// Targeting reads only the map index, the positions and the player; two
/// worlds agreeing there target identically.
proof fn lemma_targets_congruent(
    a: &World,
    b: &World,
    target: Option<Point>,
    radius: Option<i32>,
    ent: Entity,
)
    requires
        a.map.tile_content@ == b.map.tile_content@,
        a.map.width == b.map.width,
        a.map.height == b.map.height,
        a.map.tiles@ == b.map.tiles@,
        a.player == b.player,
        targets_spec(a, target, radius, ent),
    ensures
        targets_spec(b, target, radius, ent),
{
    match target {
        None => {}
        Some(pt) => {
            match radius {
                None => {}
                Some(rad) => {
                    let q = choose|q: Point|
                        #![trigger blast_tile(&a.map, pt, rad as int, q)]
                        blast_tile(&a.map, pt, rad as int, q) && a.map.tile_content@[
                            a.map.spec_idx(q.x as int, q.y as int)
                        ]@.contains(ent);
                    crate::fov::lemma_line_clear_congruent(
                        &a.map,
                        &b.map,
                        pt.x as int,
                        pt.y as int,
                        q.x as int,
                        q.y as int,
                    );
                    assert(blast_tile(&b.map, pt, rad as int, q));
                    assert(in_blast(b, pt, rad as int, ent));
                }
            }
        }
    }
}


/// Entity `t` is a resolved target of the use intent of user `k`.
pub open spec fn use_member(w: &World, k: int, t: int) -> bool {
    match w.wants_use@[k] {
        Some(ui) => 0 <= t < w.n() && targets_spec(
            w,
            ui.target,
            use_radius(w, ui.item.id as int),
            Entity { id: t as usize },
        ),
        None => false,
    }
}

/// The resolved targets of user `k`, as a list in identifier order over the
/// first `m` identifiers.
pub open spec fn use_members_upto(w: &World, k: int, m: int) -> Seq<Entity>
    decreases m,
{
    if m <= 0 {
        Seq::empty()
    } else {
        let pre = use_members_upto(w, k, m - 1);
        if use_member(w, k, m - 1) {
            pre.push(Entity { id: (m - 1) as usize })
        } else {
            pre
        }
    }
}

/// The combat-stat table after the first `k` use intents: each healing
/// intent raises every target's hit points by the heal amount, clamped into
/// machine range and at max_hp.
pub open spec fn use_stats(w: &World, k: int) -> Seq<Option<CombatStats>>
    decreases k,
{
    if k <= 0 {
        w.combat_stats@
    } else {
        let pre = use_stats(w, k - 1);
        match w.wants_use@[k - 1] {
            Some(ui) => match entry(w.healing@, ui.item.id as int) {
                Some(h) => Seq::new(
                    pre.len(),
                    |t: int|
                        if use_member(w, k - 1, t) {
                            match pre[t] {
                                Some(st) => Some(
                                    CombatStats {
                                        max_hp: st.max_hp,
                                        hp: (if st.max_hp <= crate::damage_system::clamp_i32(
                                            st.hp + h.heal_amount,
                                        ) {
                                            st.max_hp as int
                                        } else {
                                            crate::damage_system::clamp_i32(st.hp + h.heal_amount)
                                        }) as i32,
                                        defense: st.defense,
                                        power: st.power,
                                    },
                                ),
                                None => None,
                            }
                        } else {
                            pre[t]
                        },
                ),
                None => pre,
            },
            None => pre,
        }
    }
}

/// The damage amounts appended to entity `t` by the first `k` use intents.
pub open spec fn use_dmg_upto(w: &World, t: int, k: int) -> Seq<i32>
    decreases k,
{
    if k <= 0 {
        Seq::empty()
    } else {
        let pre = use_dmg_upto(w, t, k - 1);
        match w.wants_use@[k - 1] {
            Some(ui) => match entry(w.inflicts_damage@, ui.item.id as int) {
                Some(d) => if use_member(w, k - 1, t) {
                    pre.push(d.damage)
                } else {
                    pre
                },
                None => pre,
            },
            None => pre,
        }
    }
}

/// The confusion table after the first `k` use intents. The item's own
/// confusion component is read from the threaded table, as the pass reads
/// the live store.
pub open spec fn use_confusion(w: &World, k: int) -> Seq<Option<Confusion>>
    decreases k,
{
    if k <= 0 {
        w.confusion@
    } else {
        let pre = use_confusion(w, k - 1);
        match w.wants_use@[k - 1] {
            Some(ui) => match entry(pre, ui.item.id as int) {
                Some(c) => Seq::new(
                    pre.len(),
                    |t: int|
                        if use_member(w, k - 1, t) {
                            Some(Confusion { turns: c.turns })
                        } else {
                            pre[t]
                        },
                ),
                None => pre,
            },
            None => pre,
        }
    }
}

/// The equipped and backpack tables after the first `k` use intents: each
/// equip intent moves the player's same-slot items back to the backpack and
/// wears the used item.
pub open spec fn use_equip_state(w: &World, k: int) -> (
    Seq<Option<Equipped>>,
    Seq<Option<InBackpack>>,
)
    decreases k,
{
    if k <= 0 {
        (w.equipped@, w.backpacks@)
    } else {
        let (eq_pre, bp_pre) = use_equip_state(w, k - 1);
        match w.wants_use@[k - 1] {
            Some(ui) => match entry(w.equippables@, ui.item.id as int) {
                Some(eqp) => {
                    let target = w.player;
                    let slot = eqp.slot;
                    let eq_new = Seq::new(
                        eq_pre.len(),
                        |j: int|
                            if j == ui.item.id {
                                Some(Equipped { owner: target, slot })
                            } else {
                                match eq_pre[j] {
                                    Some(eq) => if eq.owner == target && eq.slot == slot {
                                        None
                                    } else {
                                        Some(eq)
                                    },
                                    None => None,
                                }
                            },
                    );
                    let bp_new = Seq::new(
                        bp_pre.len(),
                        |j: int|
                            if j == ui.item.id {
                                None
                            } else {
                                match eq_pre[j] {
                                    Some(eq) => if eq.owner == target && eq.slot == slot {
                                        Some(InBackpack { owner: target })
                                    } else {
                                        bp_pre[j]
                                    },
                                    None => bp_pre[j],
                                }
                            },
                    );
                    (eq_new, bp_new)
                },
                None => (eq_pre, bp_pre),
            },
            None => (eq_pre, bp_pre),
        }
    }
}

/// Whether the intent of user `k` counts as used: true by default, and when
/// the item damages or confuses, true exactly when a target was hit.
pub open spec fn use_used(w: &World, k: int) -> bool {
    match w.wants_use@[k] {
        Some(ui) => {
            if entry(use_confusion(w, k), ui.item.id as int) is Some {
                exists|t: int| #[trigger] use_member(w, k, t)
            } else if entry(w.inflicts_damage@, ui.item.id as int) is Some {
                exists|t: int| #[trigger] use_member(w, k, t)
            } else {
                true
            }
        },
        None => false,
    }
}

/// The pending-deletion flags after the first `k` use intents: each used
/// consumable is marked for the commit point.
pub open spec fn use_pending(w: &World, k: int) -> Seq<bool>
    decreases k,
{
    if k <= 0 {
        w.pending_delete@
    } else {
        let pre = use_pending(w, k - 1);
        match w.wants_use@[k - 1] {
            Some(ui) => if use_used(w, k - 1) && entry(w.consumables@, ui.item.id as int)
                is Some && ui.item.id < w.n() {
                pre.update(ui.item.id as int, true)
            } else {
                pre
            },
            None => pre,
        }
    }
}


/// "You drink the {item}, healing {h} hp."
pub open spec fn drink_msg(item: Seq<char>, h: int) -> Seq<char> {
    "You drink the "@ + item + ", healing "@ + crate::gamelog::dec_i32(h) + " hp."@
}

/// "You use {item} on {mob}, inflicting {d} hp."
pub open spec fn inflict_msg(item: Seq<char>, mob: Seq<char>, d: int) -> Seq<char> {
    "You use "@ + item + " on "@ + mob + ", inflicting "@ + crate::gamelog::dec_i32(d) + " hp."@
}

/// "You use {item} on {mob}, confusing them."
pub open spec fn confuse_msg(item: Seq<char>, mob: Seq<char>) -> Seq<char> {
    "You use "@ + item + " on "@ + mob + ", confusing them."@
}

/// "You unequip {name}."
pub open spec fn unequip_msg(name: Seq<char>) -> Seq<char> {
    "You unequip "@ + name + "."@
}

/// "You equip {name}."
pub open spec fn equip_msg(name: Seq<char>) -> Seq<char> {
    "You equip "@ + name + "."@
}

/// The heal messages of intent `k`: one per target with combat stats, in
/// identifier order, when the user is the player and the item is named.
pub open spec fn heal_msgs_upto(w: &World, k: int, m: int) -> Seq<Seq<char>>
    decreases m,
{
    if m <= 0 {
        Seq::empty()
    } else {
        let pre = heal_msgs_upto(w, k, m - 1);
        let ui = w.wants_use@[k]->Some_0;
        let h = entry(w.healing@, ui.item.id as int)->Some_0;
        let nm = entry(w.names@, ui.item.id as int)->Some_0;
        if use_member(w, k, m - 1) && w.combat_stats@[m - 1] is Some {
            pre.push(drink_msg(nm.name@, h.heal_amount as int))
        } else {
            pre
        }
    }
}

/// The damage messages of intent `k`: one per named target, in identifier
/// order.
pub open spec fn dmg_msgs_upto(w: &World, k: int, m: int) -> Seq<Seq<char>>
    decreases m,
{
    if m <= 0 {
        Seq::empty()
    } else {
        let pre = dmg_msgs_upto(w, k, m - 1);
        let ui = w.wants_use@[k]->Some_0;
        let d = entry(w.inflicts_damage@, ui.item.id as int)->Some_0;
        let nm = entry(w.names@, ui.item.id as int)->Some_0;
        if use_member(w, k, m - 1) && w.names@[m - 1] is Some {
            pre.push(inflict_msg(nm.name@, w.names@[m - 1]->Some_0.name@, d.damage as int))
        } else {
            pre
        }
    }
}

/// The confusion messages of intent `k`: one per named target, in
/// identifier order.
pub open spec fn conf_msgs_upto(w: &World, k: int, m: int) -> Seq<Seq<char>>
    decreases m,
{
    if m <= 0 {
        Seq::empty()
    } else {
        let pre = conf_msgs_upto(w, k, m - 1);
        let ui = w.wants_use@[k]->Some_0;
        let nm = entry(w.names@, ui.item.id as int)->Some_0;
        if use_member(w, k, m - 1) && w.names@[m - 1] is Some {
            pre.push(confuse_msg(nm.name@, w.names@[m - 1]->Some_0.name@))
        } else {
            pre
        }
    }
}

/// The unequip messages of intent `k`: one per named item the player had
/// equipped in the slot, in identifier order, over the threaded equipped
/// table.
pub open spec fn unequip_msgs_upto(w: &World, k: int, m: int) -> Seq<Seq<char>>
    decreases m,
{
    if m <= 0 {
        Seq::empty()
    } else {
        let pre = unequip_msgs_upto(w, k, m - 1);
        let ui = w.wants_use@[k]->Some_0;
        let slot = entry(w.equippables@, ui.item.id as int)->Some_0.slot;
        let eq_pre = use_equip_state(w, k).0;
        if (entry(eq_pre, m - 1) matches Some(eq) && eq.owner == w.player && eq.slot == slot)
            && w.names@[m - 1] is Some {
            pre.push(unequip_msg(w.names@[m - 1]->Some_0.name@))
        } else {
            pre
        }
    }
}

/// The heal messages a use intent contributes, after its gate.
pub open spec fn use_heal_part(w: &World, k: int) -> Seq<Seq<char>> {
    let ui = w.wants_use@[k]->Some_0;
    if k == w.player.id && entry(w.names@, ui.item.id as int) is Some && entry(
        w.healing@,
        ui.item.id as int,
    ) is Some {
        heal_msgs_upto(w, k, w.n() as int)
    } else {
        Seq::empty()
    }
}

/// The damage messages a use intent contributes, after its gate.
pub open spec fn use_dmg_part(w: &World, k: int) -> Seq<Seq<char>> {
    let ui = w.wants_use@[k]->Some_0;
    if k == w.player.id && entry(w.names@, ui.item.id as int) is Some && entry(
        w.inflicts_damage@,
        ui.item.id as int,
    ) is Some {
        dmg_msgs_upto(w, k, w.n() as int)
    } else {
        Seq::empty()
    }
}

/// The confusion messages a use intent contributes, after its gate.
pub open spec fn use_conf_part(w: &World, k: int) -> Seq<Seq<char>> {
    let ui = w.wants_use@[k]->Some_0;
    if k == w.player.id && entry(w.names@, ui.item.id as int) is Some && entry(
        use_confusion(w, k),
        ui.item.id as int,
    ) is Some {
        conf_msgs_upto(w, k, w.n() as int)
    } else {
        Seq::empty()
    }
}

/// The unequip and equip messages a use intent contributes.
pub open spec fn use_equip_part(w: &World, k: int) -> Seq<Seq<char>> {
    let ui = w.wants_use@[k]->Some_0;
    if entry(w.equippables@, ui.item.id as int) is Some && entry(
        w.names@,
        ui.item.id as int,
    ) is Some {
        unequip_msgs_upto(w, k, w.n() as int).push(
            equip_msg(entry(w.names@, ui.item.id as int)->Some_0.name@),
        )
    } else if entry(w.equippables@, ui.item.id as int) is Some {
        unequip_msgs_upto(w, k, w.n() as int)
    } else {
        Seq::empty()
    }
}

/// Whether a damaging item found a target, the used-flag state after the
/// damage branch.
pub open spec fn use_used_mid(w: &World, k: int) -> bool {
    match w.wants_use@[k] {
        Some(ui) => if entry(w.inflicts_damage@, ui.item.id as int) is Some {
            exists|t: int| #[trigger] use_member(w, k, t)
        } else {
            true
        },
        None => false,
    }
}

/// The log entries one use intent appends, in the order the resolver
/// produces them: heal, damage, confusion, unequips, equip.
#[verifier::opaque]
pub open spec fn use_msgs_for(w: &World, k: int) -> Seq<Seq<char>> {
    match w.wants_use@[k] {
        Some(ui) => use_heal_part(w, k) + use_dmg_part(w, k) + use_conf_part(w, k)
            + use_equip_part(w, k),
        None => Seq::empty(),
    }
}

/// The log entries of the first `k` use intents.
pub open spec fn use_msgs(w: &World, k: int) -> Seq<Seq<char>>
    decreases k,
{
    if k <= 0 {
        Seq::empty()
    } else {
        use_msgs(w, k - 1) + use_msgs_for(w, k - 1)
    }
}


/// The use pass never marks an entity that is no consumable: the fold
/// flips flags only at consumable item identifiers.
pub proof fn lemma_use_pending_unmarked(w: &World, k: int, j: int)
    requires
        entry(w.consumables@, j) is None,
        0 <= k,
        w.pending_delete@.len() == w.n(),
    ensures
        use_pending(w, k).len() == w.pending_delete@.len(),
        0 <= j < w.pending_delete@.len() ==> use_pending(w, k)[j] == w.pending_delete@[j],
    decreases k,
{
    reveal_with_fuel(use_pending, 2);
    if k > 0 {
        lemma_use_pending_unmarked(w, k - 1, j);
        match w.wants_use@[k - 1] {
            Some(ui) => {
                if use_used(w, k - 1) && entry(w.consumables@, ui.item.id as int) is Some
                    && ui.item.id < w.n() {
                    assert(ui.item.id as int != j);
                    assert(use_pending(w, k) == use_pending(w, k - 1).update(
                        ui.item.id as int,
                        true,
                    ));
                } else {
                    assert(use_pending(w, k) == use_pending(w, k - 1));
                }
            }
            None => {
                assert(use_pending(w, k) == use_pending(w, k - 1));
            }
        }
    } else {
        assert(use_pending(w, k) == w.pending_delete@);
    }
    assert(use_pending(w, k).len() == w.pending_delete@.len());
    if 0 <= j < w.pending_delete@.len() {
        assert(use_pending(w, k)[j] == w.pending_delete@[j]);
    }
}

/// Whether `v` holds `e`, by identifier equality.
fn entity_in(v: &Vec<Entity>, e: Entity) -> (r: bool)
    ensures
        r == v@.contains(e),
{
    let m = v.len();
    let mut i: usize = 0;
    while i < m
        invariant
            m == v@.len(),
            i <= m,
            forall|j: int| 0 <= j < i ==> v@[j] != e,
        decreases m - i,
    {
        if v[i].id == e.id {
            proof {
                assert(v@[i as int] == e);
            }
            return true;
        }
        i += 1;
    }
    proof {
        assert(!v@.contains(e));
    }
    false
}

/// The members of `ts` among the first `m` identifiers, in identifier
/// order.
pub open spec fn id_filter(ts: Seq<Entity>, m: int) -> Seq<Entity>
    decreases m,
{
    if m <= 0 {
        Seq::empty()
    } else {
        let pre = id_filter(ts, m - 1);
        if ts.contains(Entity { id: (m - 1) as usize }) {
            pre.push(Entity { id: (m - 1) as usize })
        } else {
            pre
        }
    }
}

proof fn lemma_id_filter_props(ts: Seq<Entity>, m: int)
    requires
        0 <= m <= usize::MAX,
    ensures
        forall|i: int| 0 <= i < id_filter(ts, m).len() ==> {
            &&& (#[trigger] id_filter(ts, m)[i]).id < m
            &&& ts.contains(id_filter(ts, m)[i])
        },
        forall|a: int, b: int| 0 <= a < b < id_filter(ts, m).len() ==> id_filter(ts, m)[a].id
            < id_filter(ts, m)[b].id,
        forall|t: int| 0 <= t < m && #[trigger] ts.contains(Entity { id: t as usize })
            ==> id_filter(ts, m).contains(Entity { id: t as usize }),
    decreases m,
{
    if m > 0 {
        lemma_id_filter_props(ts, m - 1);
        let pre = id_filter(ts, m - 1);
        let cur = id_filter(ts, m);
        assert forall|t: int|
            0 <= t < m && #[trigger] ts.contains(Entity { id: t as usize }) implies cur.contains(
            Entity { id: t as usize },
        ) by {
            if t < m - 1 {
                assert(pre.contains(Entity { id: t as usize }));
                let i = choose|i: int| 0 <= i < pre.len() && pre[i] == Entity { id: t as usize };
                assert(cur[i] == Entity { id: t as usize });
            } else {
                assert(cur[cur.len() - 1] == Entity { id: t as usize });
            }
        }
        assert forall|i: int| 0 <= i < cur.len() implies {
            &&& (#[trigger] cur[i]).id < m
            &&& ts.contains(cur[i])
        } by {
            if i < pre.len() {
                assert(cur[i] == pre[i]);
            }
        }
    }
}

/// The resolved target set as a list in identifier order.
fn order_targets(n: usize, targets: &Vec<Entity>) -> (r: Vec<Entity>)
    ensures
        r@ == id_filter(targets@, n as int),
{
    let mut r: Vec<Entity> = Vec::new();
    let mut t: usize = 0;
    while t < n
        invariant
            t <= n,
            r@ == id_filter(targets@, t as int),
        decreases n - t,
    {
        if entity_in(targets, Entity { id: t }) {
            r.push(Entity { id: t });
        }
        t += 1;
    }
    r
}

/// Healing keeps each entity's stat presence: only hit points move.
proof fn lemma_use_stats_presence(w: &World, k: int)
    requires
        0 <= k,
    ensures
        use_stats(w, k).len() == w.combat_stats@.len(),
        forall|t: int| 0 <= t < w.combat_stats@.len() ==> (#[trigger] use_stats(w, k)[t]
            is Some) == (w.combat_stats@[t] is Some),
    decreases k,
{
    if k > 0 {
        lemma_use_stats_presence(w, k - 1);
    }
}

fn drink_message(item: &String, h: i32) -> (r: String)
    ensures
        r@ == drink_msg(item@, h as int),
{
    let mut m = String::new();
    proof {
        reveal_strlit("You drink the ");
        reveal_strlit(", healing ");
        reveal_strlit(" hp.");
    }
    m.append("You drink the ");
    m.append(item.as_str());
    m.append(", healing ");
    let d = crate::gamelog::i32_to_dec_string(h);
    m.append(d.as_str());
    m.append(" hp.");
    proof {
        assert(m@ =~= drink_msg(item@, h as int));
    }
    m
}

fn inflict_message(item: &String, mob: &String, dmg: i32) -> (r: String)
    ensures
        r@ == inflict_msg(item@, mob@, dmg as int),
{
    let mut m = String::new();
    proof {
        reveal_strlit("You use ");
        reveal_strlit(" on ");
        reveal_strlit(", inflicting ");
        reveal_strlit(" hp.");
    }
    m.append("You use ");
    m.append(item.as_str());
    m.append(" on ");
    m.append(mob.as_str());
    m.append(", inflicting ");
    let d = crate::gamelog::i32_to_dec_string(dmg);
    m.append(d.as_str());
    m.append(" hp.");
    proof {
        assert(m@ =~= inflict_msg(item@, mob@, dmg as int));
    }
    m
}

fn confuse_message(item: &String, mob: &String) -> (r: String)
    ensures
        r@ == confuse_msg(item@, mob@),
{
    let mut m = String::new();
    proof {
        reveal_strlit("You use ");
        reveal_strlit(" on ");
        reveal_strlit(", confusing them.");
    }
    m.append("You use ");
    m.append(item.as_str());
    m.append(" on ");
    m.append(mob.as_str());
    m.append(", confusing them.");
    proof {
        assert(m@ =~= confuse_msg(item@, mob@));
    }
    m
}

fn unequip_message(nm: &String) -> (r: String)
    ensures
        r@ == unequip_msg(nm@),
{
    let mut m = String::new();
    proof {
        reveal_strlit("You unequip ");
        reveal_strlit(".");
    }
    m.append("You unequip ");
    m.append(nm.as_str());
    m.append(".");
    proof {
        assert(m@ =~= unequip_msg(nm@));
    }
    m
}

fn equip_message(nm: &String) -> (r: String)
    ensures
        r@ == equip_msg(nm@),
{
    let mut m = String::new();
    proof {
        reveal_strlit("You equip ");
        reveal_strlit(".");
    }
    m.append("You equip ");
    m.append(nm.as_str());
    m.append(".");
    proof {
        assert(m@ =~= equip_msg(nm@));
    }
    m
}

} // verus!
