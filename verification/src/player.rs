//! Player movement: a directional delta from the input layer either bumps
//! into an occupant with combat stats (attaching a melee intent), moves the
//! player onto an unblocked tile (updating the known player location and
//! dirtying the viewshed), or does nothing at the map edge or a wall.

use vstd::prelude::*;
use crate::components::{Position, Viewshed, WantsToMelee};
use crate::store::{Entity, entry};
use crate::world::World;

verus! {

/// The first occupant of tile `t` (in list order) that has combat stats.
pub open spec fn first_combat_target(w: &World, t: int, i: int) -> Option<Entity>
    decreases w.map.tile_content@[t]@.len() - i,
{
    if i < 0 || i >= w.map.tile_content@[t]@.len() {
        None
    } else {
        let e = w.map.tile_content@[t]@[i];
        if entry(w.combat_stats@, e.id as int) is Some {
            Some(e)
        } else {
            first_combat_target(w, t, i + 1)
        }
    }
}

/// Whether the destination is outside the move-allowed band.
pub open spec fn move_out_of_bounds(w: &World, nx: int, ny: int) -> bool {
    nx < 1 || nx > w.map.width - 1 || ny < 1 || ny > w.map.height - 1
}

/// Try to move the player by the given delta. Exactly one of three things
/// happens: nothing (edge of the map, or destination blocked), an attack
/// intent against the first combat-capable occupant of the destination, or
/// a move that also refreshes the known player location and dirties the
/// player's viewshed.
pub fn try_move_player(world: &mut World, delta_x: i32, delta_y: i32)
    requires
        old(world).wf(),
        old(world).player.id < old(world).n(),
        old(world).positions@[old(world).player.id as int] is Some,
        old(world).viewsheds@[old(world).player.id as int] is Some,
    ensures
        final(world).wf(),
        final(world).n() == old(world).n(),
        ({
            let pid = old(world).player.id as int;
            let p0 = old(world).positions@[pid]->Some_0;
            let nx = p0.x + delta_x;
            let ny = p0.y + delta_y;
            if move_out_of_bounds(old(world), nx, ny) {
                *final(world) == *old(world)
            } else {
                let t = old(world).map.spec_idx(nx, ny);
                match first_combat_target(old(world), t, 0) {
                    Some(tgt) => {
                        &&& final(world).wants_melee@ == old(world).wants_melee@.update(
                            pid,
                            Some(WantsToMelee { target: tgt }),
                        )
                        &&& final(world).positions@ == old(world).positions@
                        &&& final(world).viewsheds@ == old(world).viewsheds@
                        &&& final(world).player_pos == old(world).player_pos
                        &&& final(world).map == old(world).map
                    },
                    None => {
                        if !old(world).map.blocked@[t] {
                            &&& final(world).positions@ == old(world).positions@.update(
                                pid,
                                Some(Position { x: nx as i32, y: ny as i32 }),
                            )
                            &&& final(world).player_pos == (crate::geom::Point {
                                x: nx as i32,
                                y: ny as i32,
                            })
                            &&& final(world).viewsheds@[pid] matches Some(nv) && nv.dirty
                                && nv.range == old(world).viewsheds@[pid]->Some_0.range
                                && nv.visible_tiles@
                                == old(world).viewsheds@[pid]->Some_0.visible_tiles@
                            &&& forall|k: int| 0 <= k < old(world).n() && k != pid
                                ==> #[trigger] final(world).viewsheds@[k]
                                == old(world).viewsheds@[k]
                            &&& final(world).wants_melee@ == old(world).wants_melee@
                            &&& final(world).map == old(world).map
                        } else {
                            *final(world) == *old(world)
                        }
                    },
                }
            }
        }),
        final(world).renderables@ == old(world).renderables@,
        final(world).players@ == old(world).players@,
        final(world).monsters@ == old(world).monsters@,
        final(world).names@ == old(world).names@,
        final(world).blockers@ == old(world).blockers@,
        final(world).combat_stats@ == old(world).combat_stats@,
        final(world).suffer_damage@ == old(world).suffer_damage@,
        final(world).items@ == old(world).items@,
        final(world).healing@ == old(world).healing@,
        final(world).backpacks@ == old(world).backpacks@,
        final(world).wants_pickup@ == old(world).wants_pickup@,
        final(world).wants_use@ == old(world).wants_use@,
        final(world).wants_drop@ == old(world).wants_drop@,
        final(world).consumables@ == old(world).consumables@,
        final(world).ranged@ == old(world).ranged@,
        final(world).inflicts_damage@ == old(world).inflicts_damage@,
        final(world).aoe@ == old(world).aoe@,
        final(world).confusion@ == old(world).confusion@,
        final(world).equippables@ == old(world).equippables@,
        final(world).equipped@ == old(world).equipped@,
        final(world).melee_bonuses@ == old(world).melee_bonuses@,
        final(world).defense_bonuses@ == old(world).defense_bonuses@,
        final(world).alive@ == old(world).alive@,
        final(world).pending_delete@ == old(world).pending_delete@,
        final(world).log == old(world).log,
        final(world).player == old(world).player,
{
    let player = world.player;
    let p0 = *world.positions.get(player).unwrap();
    let nx64 = (p0.x as i64) + (delta_x as i64);
    let ny64 = (p0.y as i64) + (delta_y as i64);
    if nx64 < 1 || nx64 > (world.map.width as i64) - 1 || ny64 < 1 || ny64 > (world.map.height
        as i64) - 1 {
        proof {
            assert(*world == *old(world));
            assert(move_out_of_bounds(old(world), p0.x + delta_x, p0.y + delta_y));
        }
        return;
    }
    let nx = nx64 as i32;
    let ny = ny64 as i32;
    let dest = world.map.xy_idx(nx, ny);
    proof {
        world.map.lemma_idx_bounds(nx as int, ny as int);
    }

    // bump attack: the first occupant with combat stats becomes the target
    let row_len = world.map.tile_content[dest].len();
    let mut i: usize = 0;
    while i < row_len
        invariant
            world.wf(),
            old(world).wf(),
            *world == *old(world),
            player == world.player,
            player.id < world.n(),
            nx == p0.x + delta_x,
            ny == p0.y + delta_y,
            p0 == old(world).positions@[player.id as int]->Some_0,
            !move_out_of_bounds(old(world), nx as int, ny as int),
            dest == old(world).map.spec_idx(nx as int, ny as int),
            0 <= dest < world.map.tile_content@.len(),
            row_len == world.map.tile_content@[dest as int]@.len(),
            i <= row_len,
            first_combat_target(world, dest as int, 0) == first_combat_target(
                world,
                dest as int,
                i as int,
            ),
        decreases row_len - i,
    {
        let candidate = world.map.tile_content[dest][i];
        if world.combat_stats.has(candidate) {
            proof {
                assert(first_combat_target(world, dest as int, i as int) == Some(candidate));
            }
            let ghost wpre = *world;
            world.wants_melee.insert(player, WantsToMelee { target: candidate });
            proof {
                assert(wpre == *old(world));
                assert(world.wants_melee@ == old(world).wants_melee@.update(
                    player.id as int,
                    Some(WantsToMelee { target: candidate }),
                ));
            }
            return;
        }
        i += 1;
    }
    proof {
        assert(first_combat_target(world, dest as int, 0) is None);
    }

    proof {
        assert(*world == *old(world));
    }
    if !world.map.blocked[dest] {
        world.positions.insert(player, Position { x: nx, y: ny });
        let vs = world.viewsheds.get(player).unwrap();
        let nv = Viewshed {
            visible_tiles: vs.visible_tiles.clone(),
            range: vs.range,
            dirty: true,
        };
        world.viewsheds.insert(player, nv);
        world.player_pos = crate::geom::Point { x: nx, y: ny };
        proof {
            assert(nv.visible_tiles@ =~= old(world).viewsheds@[player.id as int]
                ->Some_0.visible_tiles@);
        }
    }
}

} // verus!
