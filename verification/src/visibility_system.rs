//! The visibility system: for every viewer whose viewshed is dirty, the
//! visible-tile set is recomputed from scratch by field of view, never
//! incrementally patched, and the dirty flag is cleared. When the viewer is
//! the player, the map's visible and revealed bitsets and the shared
//! known-player-location resource are refreshed as well.

use vstd::prelude::*;
use crate::components::Viewshed;
use crate::fov::{field_of_view, spec_visible};
use crate::geom::Point;
use crate::store::Entity;
use crate::world::World;

verus! {

/// Entity `e` gets its viewshed recomputed this pass: it holds a dirty
/// viewshed and a position.
pub open spec fn viewer_dirty(w: &World, e: int) -> bool {
    &&& w.viewsheds@[e] matches Some(vs) && vs.dirty
    &&& w.positions@[e] is Some
}

/// The recomputed viewshed of `e`: same range, dirty cleared, and the
/// visible set holding exactly the tiles visible from its position.
pub open spec fn viewshed_fresh(w: &World, e: int, nv: Viewshed) -> bool {
    let vs = w.viewsheds@[e]->Some_0;
    let p = w.positions@[e]->Some_0;
    let c = Point { x: p.x, y: p.y };
    &&& nv.range == vs.range
    &&& nv.dirty == false
    &&& forall|q: Point| nv.visible_tiles@.contains(q) <==> spec_visible(
        &w.map,
        c,
        vs.range as int,
        q,
    )
    &&& forall|i: int, j: int| 0 <= i < j < nv.visible_tiles@.len() ==> nv.visible_tiles@[i]
        != nv.visible_tiles@[j]
}

/// The visibility pass.
pub fn run_visibility(world: &mut World)
    requires
        old(world).wf(),
    ensures
        final(world).wf(),
        final(world).n() == old(world).n(),
        forall|e: int| 0 <= e < old(world).n() && !viewer_dirty(old(world), e)
            ==> #[trigger] final(world).viewsheds@[e] == old(world).viewsheds@[e],
        forall|e: int| 0 <= e < old(world).n() && viewer_dirty(old(world), e)
            ==> ((#[trigger] final(world).viewsheds@[e]) matches Some(nv) && viewshed_fresh(
            old(world),
            e,
            nv,
        )),
        final(world).positions@ == old(world).positions@,
        final(world).renderables@ == old(world).renderables@,
        final(world).players@ == old(world).players@,
        final(world).monsters@ == old(world).monsters@,
        final(world).names@ == old(world).names@,
        final(world).blockers@ == old(world).blockers@,
        final(world).combat_stats@ == old(world).combat_stats@,
        final(world).wants_melee@ == old(world).wants_melee@,
        final(world).suffer_damage@ == old(world).suffer_damage@,
        final(world).items@ == old(world).items@,
        final(world).healing@ == old(world).healing@,
        final(world).backpacks@ == old(world).backpacks@,
        final(world).wants_pickup@ == old(world).wants_pickup@,
        final(world).wants_use@ == old(world).wants_use@,
        final(world).wants_drop@ == old(world).wants_drop@,
        final(world).consumables@ == old(world).consumables@,
        final(world).ranged@ == old(world).ranged@,
        final(world).inflicts_damage@ == old(world).inflicts_damage@,
        final(world).aoe@ == old(world).aoe@,
        final(world).confusion@ == old(world).confusion@,
        final(world).equippables@ == old(world).equippables@,
        final(world).equipped@ == old(world).equipped@,
        final(world).melee_bonuses@ == old(world).melee_bonuses@,
        final(world).defense_bonuses@ == old(world).defense_bonuses@,
        final(world).alive@ == old(world).alive@,
        final(world).pending_delete@ == old(world).pending_delete@,
        final(world).map.tiles == old(world).map.tiles,
        final(world).map.rooms == old(world).map.rooms,
        final(world).map.width == old(world).map.width,
        final(world).map.height == old(world).map.height,
        final(world).map.blocked == old(world).map.blocked,
        final(world).map.tile_content == old(world).map.tile_content,
        final(world).log == old(world).log,
        final(world).player == old(world).player,
        // the player's recomputation refreshes the map bitsets and the
        // known player location
        old(world).player.id < old(world).n() && viewer_dirty(
            old(world),
            old(world).player.id as int,
        ) ==> {
            &&& final(world).player_pos == (Point {
                x: old(world).positions@[old(world).player.id as int]->Some_0.x,
                y: old(world).positions@[old(world).player.id as int]->Some_0.y,
            })
            &&& forall|x: int, y: int| #![trigger old(world).map.spec_idx(x, y)]
                old(world).map.in_map(x, y) ==> {
                    &&& final(world).map.visible_tiles@[old(world).map.spec_idx(x, y)]
                        == spec_visible(
                        &old(world).map,
                        Point {
                            x: old(world).positions@[old(world).player.id as int]->Some_0.x,
                            y: old(world).positions@[old(world).player.id as int]->Some_0.y,
                        },
                        old(world).viewsheds@[old(world).player.id as int]->Some_0.range as int,
                        Point { x: x as i32, y: y as i32 },
                    )
                    &&& final(world).map.revealed_tiles@[old(world).map.spec_idx(x, y)]
                        == (old(world).map.revealed_tiles@[old(world).map.spec_idx(x, y)]
                        || final(world).map.visible_tiles@[old(world).map.spec_idx(x, y)])
                }
        },
        !(old(world).player.id < old(world).n() && viewer_dirty(
            old(world),
            old(world).player.id as int,
        )) ==> {
            &&& final(world).player_pos == old(world).player_pos
            &&& final(world).map.visible_tiles == old(world).map.visible_tiles
            &&& final(world).map.revealed_tiles == old(world).map.revealed_tiles
        },
{
    let n = world.alive.len();
    let mut e: usize = 0;
    while e < n
        invariant
            world.wf(),
            old(world).wf(),
            n == world.n(),
            n == old(world).n(),
            e <= n,
            forall|k: int| 0 <= k < n && !(k < e && viewer_dirty(old(world), k))
                ==> #[trigger] world.viewsheds@[k] == old(world).viewsheds@[k],
            forall|k: int| 0 <= k < n && k < e && viewer_dirty(old(world), k)
                ==> ((#[trigger] world.viewsheds@[k]) matches Some(nv) && viewshed_fresh(
                old(world),
                k,
                nv,
            )),
            world.positions@ == old(world).positions@,
            world.renderables@ == old(world).renderables@,
            world.players@ == old(world).players@,
            world.monsters@ == old(world).monsters@,
            world.names@ == old(world).names@,
            world.blockers@ == old(world).blockers@,
            world.combat_stats@ == old(world).combat_stats@,
            world.wants_melee@ == old(world).wants_melee@,
            world.suffer_damage@ == old(world).suffer_damage@,
            world.items@ == old(world).items@,
            world.healing@ == old(world).healing@,
            world.backpacks@ == old(world).backpacks@,
            world.wants_pickup@ == old(world).wants_pickup@,
            world.wants_use@ == old(world).wants_use@,
            world.wants_drop@ == old(world).wants_drop@,
            world.consumables@ == old(world).consumables@,
            world.ranged@ == old(world).ranged@,
            world.inflicts_damage@ == old(world).inflicts_damage@,
            world.aoe@ == old(world).aoe@,
            world.confusion@ == old(world).confusion@,
            world.equippables@ == old(world).equippables@,
            world.equipped@ == old(world).equipped@,
            world.melee_bonuses@ == old(world).melee_bonuses@,
            world.defense_bonuses@ == old(world).defense_bonuses@,
            world.alive@ == old(world).alive@,
            world.pending_delete@ == old(world).pending_delete@,
            world.map.tiles == old(world).map.tiles,
            world.map.rooms == old(world).map.rooms,
            world.map.width == old(world).map.width,
            world.map.height == old(world).map.height,
            world.map.blocked == old(world).map.blocked,
            world.map.tile_content == old(world).map.tile_content,
            world.log == old(world).log,
            world.player == old(world).player,
            old(world).player.id < n && e > old(world).player.id && viewer_dirty(
                old(world),
                old(world).player.id as int,
            ) ==> {
                &&& world.player_pos == (Point {
                    x: old(world).positions@[old(world).player.id as int]->Some_0.x,
                    y: old(world).positions@[old(world).player.id as int]->Some_0.y,
                })
                &&& forall|x: int, y: int| #![trigger old(world).map.spec_idx(x, y)]
                    old(world).map.in_map(x, y) ==> {
                        &&& world.map.visible_tiles@[old(world).map.spec_idx(x, y)]
                            == spec_visible(
                            &old(world).map,
                            Point {
                                x: old(world).positions@[old(world).player.id as int]->Some_0.x,
                                y: old(world).positions@[old(world).player.id as int]->Some_0.y,
                            },
                            old(world).viewsheds@[old(world).player.id as int]->Some_0.range
                                as int,
                            Point { x: x as i32, y: y as i32 },
                        )
                        &&& world.map.revealed_tiles@[old(world).map.spec_idx(x, y)]
                            == (old(world).map.revealed_tiles@[old(world).map.spec_idx(x, y)]
                            || world.map.visible_tiles@[old(world).map.spec_idx(x, y)])
                    }
            },
            !(old(world).player.id < n && e > old(world).player.id && viewer_dirty(
                old(world),
                old(world).player.id as int,
            )) ==> {
                &&& world.player_pos == old(world).player_pos
                &&& world.map.visible_tiles == old(world).map.visible_tiles
                &&& world.map.revealed_tiles == old(world).map.revealed_tiles
            },
        decreases n - e,
    {
        let ent = Entity { id: e };
        let mut dirty = false;
        let mut range: i32 = 0;
        match world.viewsheds.get(ent) {
            Some(vs) => {
                if vs.dirty {
                    dirty = true;
                    range = vs.range;
                }
            }
            None => {}
        }
        let mut has_pos = false;
        let mut pos = Point { x: 0, y: 0 };
        match world.positions.get(ent) {
            Some(p) => {
                has_pos = true;
                pos = Point { x: p.x, y: p.y };
            }
            None => {}
        }
        if dirty && has_pos {
            let tiles = field_of_view(&world.map, pos, range);
            proof {
                assert forall|q: Point| tiles@.contains(q) == spec_visible(
                    &old(world).map,
                    pos,
                    range as int,
                    q,
                ) by {
                    crate::fov::lemma_spec_visible_congruent(
                        &world.map,
                        &old(world).map,
                        pos,
                        range as int,
                        q,
                    );
                }
            }
            let nv = Viewshed { visible_tiles: tiles, range, dirty: false };
            world.viewsheds.insert(ent, nv);
            if e == world.player.id {
                // refresh the map's visible and revealed bitsets from the
                // player's new visible set, and the known player location
                let total = world.map.visible_tiles.len();
                let mut visible: Vec<bool> = Vec::new();
                let mut i: usize = 0;
                while i < total
                    invariant
                        i <= total,
                        visible@.len() == i,
                        forall|j: int| 0 <= j < i ==> visible@[j] == false,
                    decreases total - i,
                {
                    visible.push(false);
                    i += 1;
                }
                let vs_ref = world.viewsheds.get(ent).unwrap();
                let nvt = vs_ref.visible_tiles.clone();
                proof {
                    assert(nvt@ =~= vs_ref.visible_tiles@);
                }
                let ghost vis0 = visible@;
                let nq = nvt.len();
                let mut qi: usize = 0;
                while qi < nq
                    invariant
                        world.wf(),
                        nq == nvt@.len(),
                        qi <= nq,
                        total == world.map.visible_tiles@.len(),
                        total == world.map.width * world.map.height,
                        visible@.len() == total,
                        forall|k: int| 0 <= k < nq ==> world.map.in_map(
                            (#[trigger] nvt@[k]).x as int,
                            nvt@[k].y as int,
                        ),
                        forall|j: int| 0 <= j < total ==> (#[trigger] visible@[j] == (exists|
                            k: int,
                        |
                            0 <= k < qi && world.map.spec_idx(
                                (#[trigger] nvt@[k]).x as int,
                                nvt@[k].y as int,
                            ) == j)),
                    decreases nq - qi,
                {
                    let q = nvt[qi];
                    let idx = world.map.xy_idx(q.x, q.y);
                    proof {
                        world.map.lemma_idx_bounds(q.x as int, q.y as int);
                    }
                    let ghost vispre = visible@;
                    visible[idx] = true;
                    proof {
                        assert forall|j: int| 0 <= j < total implies (#[trigger] visible@[j] == (
                        exists|k: int|
                            0 <= k < qi + 1 && world.map.spec_idx(
                                (#[trigger] nvt@[k]).x as int,
                                nvt@[k].y as int,
                            ) == j)) by {
                            if j == idx {
                                assert(world.map.spec_idx(nvt@[qi as int].x as int, nvt@[
                                    qi as int
                                ].y as int) == j);
                            } else {
                                assert(visible@[j] == vispre[j]);
                            }
                        }
                    }
                    qi += 1;
                }
                let mut revealed: Vec<bool> = Vec::new();
                let mut i2: usize = 0;
                while i2 < total
                    invariant
                        i2 <= total,
                        total == world.map.revealed_tiles@.len(),
                        visible@.len() == total,
                        revealed@.len() == i2,
                        forall|j: int| 0 <= j < i2 ==> revealed@[j]
                            == (world.map.revealed_tiles@[j] || visible@[j]),
                    decreases total - i2,
                {
                    revealed.push(world.map.revealed_tiles[i2] || visible[i2]);
                    i2 += 1;
                }
                world.map.visible_tiles = visible;
                world.map.revealed_tiles = revealed;
                world.player_pos = pos;
                proof {
                    assert forall|x: int, y: int| #![trigger old(world).map.spec_idx(x, y)]
                        old(world).map.in_map(x, y) implies {
                        &&& world.map.visible_tiles@[old(world).map.spec_idx(x, y)]
                            == spec_visible(
                            &old(world).map,
                            pos,
                            range as int,
                            Point { x: x as i32, y: y as i32 },
                        )
                        &&& world.map.revealed_tiles@[old(world).map.spec_idx(x, y)]
                            == (old(world).map.revealed_tiles@[old(world).map.spec_idx(x, y)]
                            || world.map.visible_tiles@[old(world).map.spec_idx(x, y)])
                    } by {
                        old(world).map.lemma_idx_bounds(x, y);
                        let qq = Point { x: x as i32, y: y as i32 };
                        if world.map.visible_tiles@[old(world).map.spec_idx(x, y)] {
                            let k = choose|k: int|
                                0 <= k < nvt@.len() && world.map.spec_idx(
                                    (#[trigger] nvt@[k]).x as int,
                                    nvt@[k].y as int,
                                ) == old(world).map.spec_idx(x, y);
                            old(world).map.lemma_idx_injective(
                                nvt@[k].x as int,
                                nvt@[k].y as int,
                                x,
                                y,
                            );
                            assert(nvt@[k] == qq);
                            assert(nvt@.contains(qq));
                        }
                        if spec_visible(&old(world).map, pos, range as int, qq) {
                            assert(nvt@.contains(qq));
                            let k = choose|k: int| 0 <= k < nvt@.len() && nvt@[k] == qq;
                        }
                    }
                }
            }
        }
        e += 1;
    }
}

} // verus!
