//! The map indexing system: rebuilds, from scratch and once per tick, the
//! per-tile blocking flags and occupant lists from the current entity
//! positions. Running it twice without movement in between changes nothing.

use vstd::prelude::*;
use crate::map::TileType;
use crate::store::{Entity, entry};
use crate::world::World;

verus! {

/// Some entity among the first `n` stands on tile `i` and blocks it.
pub open spec fn blocked_by_entity_upto(w: &World, i: int, n: int) -> bool {
    exists|e: int|
        0 <= e < n && ((#[trigger] w.positions@[e]) matches Some(p) && w.map.spec_idx(
            p.x as int,
            p.y as int,
        ) == i && w.blockers@[e] is Some)
}

/// What the blocking flag of tile `i` is rebuilt to: wall implies blocked,
/// plus any blocking entity standing there.
pub open spec fn blocked_spec(w: &World, i: int) -> bool {
    w.map.tiles@[i] == TileType::Wall || blocked_by_entity_upto(w, i, w.n())
}

/// The occupant list of tile `i`, rebuilt from the first `n` entities in
/// identifier order.
pub open spec fn content_upto(w: &World, i: int, n: int) -> Seq<Entity>
    decreases n,
{
    if n <= 0 {
        Seq::empty()
    } else {
        let pre = content_upto(w, i, n - 1);
        match w.positions@[n - 1] {
            Some(p) => if w.map.spec_idx(p.x as int, p.y as int) == i {
                pre.push(Entity { id: (n - 1) as usize })
            } else {
                pre
            },
            None => pre,
        }
    }
}

/// What the occupant list of tile `i` is rebuilt to.
pub open spec fn content_spec(w: &World, i: int) -> Seq<Entity> {
    content_upto(w, i, w.n())
}

/// Two worlds with the same positions and blocking tags agree on which
/// entities block a tile.
pub proof fn lemma_blocked_congruent(a: &World, b: &World, i: int, n: int)
    requires
        a.positions@ == b.positions@,
        a.blockers@ == b.blockers@,
        a.map.width == b.map.width,
    ensures
        blocked_by_entity_upto(a, i, n) == blocked_by_entity_upto(b, i, n),
{
    if blocked_by_entity_upto(a, i, n) {
        let e = choose|e: int|
            0 <= e < n && ((#[trigger] a.positions@[e]) matches Some(p) && a.map.spec_idx(
                p.x as int,
                p.y as int,
            ) == i && a.blockers@[e] is Some);
        assert((b.positions@[e] matches Some(p) && b.map.spec_idx(p.x as int, p.y as int) == i
            && b.blockers@[e] is Some));
        assert(blocked_by_entity_upto(b, i, n));
    }
    if blocked_by_entity_upto(b, i, n) {
        let e = choose|e: int|
            0 <= e < n && ((#[trigger] b.positions@[e]) matches Some(p) && b.map.spec_idx(
                p.x as int,
                p.y as int,
            ) == i && b.blockers@[e] is Some);
        assert((a.positions@[e] matches Some(p) && a.map.spec_idx(p.x as int, p.y as int) == i
            && a.blockers@[e] is Some));
        assert(blocked_by_entity_upto(a, i, n));
    }
}

/// The indexing result depends only on the tiles, the positions and the
/// blocking tags; two worlds agreeing on those index identically.
pub proof fn lemma_content_congruent(a: &World, b: &World, i: int, n: int)
    requires
        a.positions@ == b.positions@,
        a.map.width == b.map.width,
    ensures
        content_upto(a, i, n) == content_upto(b, i, n),
    decreases n,
{
    if n > 0 {
        lemma_content_congruent(a, b, i, n - 1);
    }
}

/// Properties of a rebuilt occupant list: every member is an entity below
/// `n` standing on tile `i`, listed in strictly increasing identifier
/// order.
proof fn lemma_content_upto_props(w: &World, i: int, n: int)
    requires
        n <= usize::MAX,
    ensures
        forall|k: int| 0 <= k < content_upto(w, i, n).len() ==> {
            &&& 0 <= (#[trigger] content_upto(w, i, n)[k]).id < n
            &&& w.positions@[content_upto(w, i, n)[k].id as int] matches Some(p)
                && w.map.spec_idx(p.x as int, p.y as int) == i
        },
        forall|a: int, b: int| 0 <= a < b < content_upto(w, i, n).len()
            ==> content_upto(w, i, n)[a].id < content_upto(w, i, n)[b].id,
    decreases n,
{
    if n > 0 {
        lemma_content_upto_props(w, i, n - 1);
        let pre = content_upto(w, i, n - 1);
        let cur = content_upto(w, i, n);
        let pushed = (w.positions@[n - 1] matches Some(p) && w.map.spec_idx(
            p.x as int,
            p.y as int,
        ) == i);
        if pushed {
            assert(cur == pre.push(Entity { id: (n - 1) as usize }));
        } else {
            assert(cur == pre);
        }
        assert forall|k: int| 0 <= k < cur.len() implies {
            &&& 0 <= (#[trigger] cur[k]).id < n
            &&& w.positions@[cur[k].id as int] matches Some(p) && w.map.spec_idx(
                p.x as int,
                p.y as int,
            ) == i
        } by {
            if k < pre.len() {
                assert(cur[k] == pre[k]);
                assert(0 <= pre[k].id < n - 1);
                assert(w.positions@[pre[k].id as int] matches Some(p) && w.map.spec_idx(
                    p.x as int,
                    p.y as int,
                ) == i);
            } else {
                assert(pushed);
                assert(cur[k] == Entity { id: (n - 1) as usize });
            }
        }
        assert forall|a: int, b: int| 0 <= a < b < cur.len() implies cur[a].id < cur[b].id by {
            if b < pre.len() {
                assert(cur[a] == pre[a] && cur[b] == pre[b]);
                assert(pre[a].id < pre[b].id);
            } else {
                assert(pushed);
                assert(cur[a] == pre[a]);
                assert(0 <= pre[a].id < n - 1);
                assert(cur[b] == Entity { id: (n - 1) as usize });
            }
        }
    }
}

/// After the indexing pass the occupant lists are consistent: no entity is
/// listed twice anywhere.
pub proof fn lemma_indexed_occupants_ok(w0: &World, w1: &World)
    requires
        w0.wf(),
        forall|t: int| 0 <= t < w1.map.tile_content@.len()
            ==> (#[trigger] w1.map.tile_content@[t])@ == content_spec(w0, t),
    ensures
        crate::inventory_system::occupants_ok(w1),
{
    assert forall|t1: int, i1: int, t2: int, i2: int|
        0 <= t1 < w1.map.tile_content@.len() && 0 <= i1 < w1.map.tile_content@[t1]@.len() && 0
            <= t2 < w1.map.tile_content@.len() && 0 <= i2 < w1.map.tile_content@[t2]@.len() && (t1
            != t2 || i1 != i2) implies #[trigger] w1.map.tile_content@[t1]@[i1]
        != #[trigger] w1.map.tile_content@[t2]@[i2] by {
        lemma_content_upto_props(w0, t1, w0.n() as int);
        lemma_content_upto_props(w0, t2, w0.n() as int);
        if t1 == t2 {
            if i1 < i2 {
                assert(content_spec(w0, t1)[i1].id < content_spec(w0, t2)[i2].id);
            } else {
                assert(content_spec(w0, t2)[i2].id < content_spec(w0, t1)[i1].id);
            }
        } else {
            if w1.map.tile_content@[t1]@[i1] == w1.map.tile_content@[t2]@[i2] {
                let e = content_spec(w0, t1)[i1];
                assert(w0.positions@[e.id as int] matches Some(p) && w0.map.spec_idx(
                    p.x as int,
                    p.y as int,
                ) == t1);
                assert(w0.positions@[e.id as int] matches Some(p) && w0.map.spec_idx(
                    p.x as int,
                    p.y as int,
                ) == t2);
                assert(false);
            }
        }
    }
}


/// Idempotence of the indexing pass: it reads only the tiles, positions and
/// blocking tags, and writes only the derived `blocked` and `tile_content`
/// state, so a second run without movement rebuilds the identical state.
pub proof fn lemma_indexing_idempotent(w0: &World, w1: &World)
    requires
        w0.positions@ == w1.positions@,
        w0.blockers@ == w1.blockers@,
        w0.alive@.len() == w1.alive@.len(),
        w0.map.width == w1.map.width,
        w0.map.tiles@ == w1.map.tiles@,
        forall|i: int| 0 <= i < w1.map.blocked@.len() ==> w1.map.blocked@[i] == blocked_spec(
            w0,
            i,
        ),
        forall|i: int| 0 <= i < w1.map.tile_content@.len() ==> w1.map.tile_content@[i]@
            == content_spec(w0, i),
    ensures
        forall|i: int| 0 <= i < w1.map.blocked@.len() ==> w1.map.blocked@[i] == blocked_spec(
            w1,
            i,
        ),
        forall|i: int| 0 <= i < w1.map.tile_content@.len() ==> w1.map.tile_content@[i]@
            == content_spec(w1, i),
{
    assert forall|i: int| 0 <= i < w1.map.blocked@.len() implies w1.map.blocked@[i]
        == blocked_spec(w1, i) by {
        assert(w1.map.blocked@[i] == blocked_spec(w0, i));
        lemma_blocked_congruent(w0, w1, i, w0.n() as int);
    }
    assert forall|i: int| 0 <= i < w1.map.tile_content@.len() implies w1.map.tile_content@[i]@
        == content_spec(w1, i) by {
        assert(w1.map.tile_content@[i]@ == content_spec(w0, i));
        lemma_content_congruent(w0, w1, i, w1.n() as int);
    }
}

/// Rebuild the blocking flags and occupant lists from current positions.
pub fn run_map_indexing(world: &mut World)
    requires
        old(world).wf(),
    ensures
        final(world).wf(),
        final(world).n() == old(world).n(),
        forall|i: int| 0 <= i < old(world).n()
            ==> World::same_components_at(old(world), final(world), i),
        final(world).alive@ == old(world).alive@,
        final(world).pending_delete@ == old(world).pending_delete@,
        final(world).log == old(world).log,
        final(world).player == old(world).player,
        final(world).player_pos == old(world).player_pos,
        final(world).positions@ == old(world).positions@,
        final(world).renderables@ == old(world).renderables@,
        final(world).players@ == old(world).players@,
        final(world).monsters@ == old(world).monsters@,
        final(world).viewsheds@ == old(world).viewsheds@,
        final(world).names@ == old(world).names@,
        final(world).blockers@ == old(world).blockers@,
        final(world).combat_stats@ == old(world).combat_stats@,
        final(world).wants_melee@ == old(world).wants_melee@,
        final(world).suffer_damage@ == old(world).suffer_damage@,
        final(world).items@ == old(world).items@,
        final(world).healing@ == old(world).healing@,
        final(world).backpacks@ == old(world).backpacks@,
        final(world).wants_pickup@ == old(world).wants_pickup@,
        final(world).wants_use@ == old(world).wants_use@,
        final(world).wants_drop@ == old(world).wants_drop@,
        final(world).consumables@ == old(world).consumables@,
        final(world).ranged@ == old(world).ranged@,
        final(world).inflicts_damage@ == old(world).inflicts_damage@,
        final(world).aoe@ == old(world).aoe@,
        final(world).confusion@ == old(world).confusion@,
        final(world).equippables@ == old(world).equippables@,
        final(world).equipped@ == old(world).equipped@,
        final(world).melee_bonuses@ == old(world).melee_bonuses@,
        final(world).defense_bonuses@ == old(world).defense_bonuses@,
        final(world).map.tiles == old(world).map.tiles,
        final(world).map.rooms == old(world).map.rooms,
        final(world).map.width == old(world).map.width,
        final(world).map.height == old(world).map.height,
        final(world).map.revealed_tiles == old(world).map.revealed_tiles,
        final(world).map.visible_tiles == old(world).map.visible_tiles,
        final(world).map.blocked@.len() == old(world).map.blocked@.len(),
        final(world).map.tile_content@.len() == old(world).map.tile_content@.len(),
        forall|i: int| 0 <= i < final(world).map.blocked@.len() ==> final(world).map.blocked@[i]
            == blocked_spec(old(world), i),
        forall|i: int| 0 <= i < final(world).map.tile_content@.len()
            ==> (#[trigger] final(world).map.tile_content@[i])@ == content_spec(old(world), i),
{
    let total = world.map.blocked.len();
    let ghost w0 = *world;

    // wall-implies-blocked baseline
    let mut blocked: Vec<bool> = Vec::new();
    let mut i: usize = 0;
    while i < total
        invariant
            *world == w0,
            w0.wf(),
            total == w0.map.blocked@.len(),
            total == w0.map.tiles@.len(),
            i <= total,
            blocked@.len() == i,
            forall|j: int| 0 <= j < i ==> blocked@[j] == (w0.map.tiles@[j] == TileType::Wall),
        decreases total - i,
    {
        blocked.push(world.map.tiles[i] == TileType::Wall);
        i += 1;
    }

    // empty occupant lists
    let mut content: Vec<Vec<Entity>> = Vec::new();
    let mut i2: usize = 0;
    while i2 < total
        invariant
            i2 <= total,
            content@.len() == i2,
            forall|j: int| 0 <= j < i2 ==> (#[trigger] content@[j])@ == Seq::<Entity>::empty(),
        decreases total - i2,
    {
        content.push(Vec::new());
        i2 += 1;
    }

    // walk the entities in identifier order
    let n = world.alive.len();
    let mut e: usize = 0;
    while e < n
        invariant
            *world == w0,
            w0.wf(),
            n == w0.n(),
            e <= n,
            total == w0.map.blocked@.len(),
            total == w0.map.tiles@.len(),
            total == w0.map.width * w0.map.height,
            blocked@.len() == total,
            content@.len() == total,
            forall|j: int| 0 <= j < total ==> blocked@[j] == (w0.map.tiles@[j] == TileType::Wall
                || blocked_by_entity_upto(&w0, j, e as int)),
            forall|j: int| 0 <= j < total ==> (#[trigger] content@[j])@ == content_upto(
                &w0,
                j,
                e as int,
            ),
        decreases n - e,
    {
        let ent = Entity { id: e };
        let pos = world.positions.get(ent);
        match pos {
            Some(p) => {
                let p = *p;
                let idx = world.map.xy_idx(p.x, p.y);
                proof {
                    world.map.lemma_idx_bounds(p.x as int, p.y as int);
                }
                let ghost blocked0 = blocked@;
                let ghost content0 = content@;
                if world.blockers.has(ent) {
                    blocked[idx] = true;
                }
                let mut row = content[idx].clone();
                row.push(ent);
                proof {
                    assert(row@ =~= content0[idx as int]@.push(ent));
                }
                content[idx] = row;
                proof {
                    assert forall|j: int| 0 <= j < total implies blocked@[j] == (w0.map.tiles@[j]
                        == TileType::Wall || blocked_by_entity_upto(&w0, j, e + 1)) by {
                        if j == idx {
                            if w0.blockers@[e as int] is Some {
                                assert(blocked@[j] == true);
                                assert(blocked_by_entity_upto(&w0, j, e + 1));
                            } else {
                                assert(blocked@[j] == blocked0[j]);
                                assert(blocked_by_entity_upto(&w0, j, e + 1)
                                    == blocked_by_entity_upto(&w0, j, e as int));
                            }
                        } else {
                            assert(blocked@[j] == blocked0[j]);
                            assert(blocked_by_entity_upto(&w0, j, e + 1) == blocked_by_entity_upto(
                                &w0,
                                j,
                                e as int,
                            ));
                        }
                    }
                    assert forall|j: int| 0 <= j < total implies (#[trigger] content@[j])@
                        == content_upto(&w0, j, e + 1) by {
                        if j == idx {
                            assert(content@[j]@ == content0[j]@.push(ent));
                        } else {
                            assert(content@[j]@ == content0[j]@);
                        }
                    }
                }
            }
            None => {
                proof {
                    assert forall|j: int| 0 <= j < total implies blocked@[j] == (w0.map.tiles@[j]
                        == TileType::Wall || blocked_by_entity_upto(&w0, j, e + 1)) by {
                        assert(blocked_by_entity_upto(&w0, j, e + 1) == blocked_by_entity_upto(
                            &w0,
                            j,
                            e as int,
                        ));
                    }
                    assert forall|j: int| 0 <= j < total implies (#[trigger] content@[j])@
                        == content_upto(&w0, j, e + 1) by {
                        assert(content_upto(&w0, j, e + 1) == content_upto(&w0, j, e as int));
                    }
                }
            }
        }
        e += 1;
    }

    world.map.blocked = blocked;
    world.map.tile_content = content;
}

} // verus!
