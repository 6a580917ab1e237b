//! The monster AI: per monster, a choice between taunting in place when
//! adjacent to the player, refreshing its memory of the player's position
//! when the player is in sight, and otherwise walking one step along a
//! shortest path toward the remembered position. A monster that moves moves
//! exactly one step closer: the path the search returns is minimal.

use vstd::prelude::*;
use crate::components::{Monster, Position, Viewshed};
use crate::fov::points_contain;
use crate::geom::{Point, dist2};
use crate::pathfind::{min_steps_is, shortest_path};
use crate::store::Entity;
use crate::world::World;

verus! {

/// Entity `e` is a monster this pass drives: monster tag, viewshed, name
/// and position all present.
pub open spec fn monster_acts(w: &World, e: int) -> bool {
    &&& w.monsters@[e] is Some
    &&& w.viewsheds@[e] is Some
    &&& w.names@[e] is Some
    &&& w.positions@[e] is Some
}

/// The monster stands next to the player (Euclidean distance below 1.5,
/// which on the grid is a squared distance of at most 2).
pub open spec fn adjacent_to_player(w: &World, e: int) -> bool {
    let p = w.positions@[e]->Some_0;
    dist2(Point { x: p.x, y: p.y }, w.player_pos) <= 2
}

/// The memory the monster leaves the pass with: refreshed to the player's
/// current position when the player is in its sight, kept otherwise.
pub open spec fn new_memory(w: &World, e: int) -> Option<Point> {
    if w.viewsheds@[e]->Some_0.visible_tiles@.contains(w.player_pos) {
        Some(w.player_pos)
    } else {
        w.monsters@[e]->Some_0.memory
    }
}

/// What one driven, non-adjacent monster does, given its refreshed memory:
/// with no memory or an unreachable or already-reached target it stays put;
/// with a target reachable in n >= 1 steps it moves to a tile exactly one
/// step closer along a shortest path and dirties its viewshed.
pub open spec fn monster_move_spec(w0: &World, w1: &World, e: int) -> bool {
    match new_memory(w0, e) {
        None => w1.positions@[e] == w0.positions@[e] && w1.viewsheds@[e] == w0.viewsheds@[e],
        Some(t) => {
            let p0 = w0.positions@[e]->Some_0;
            let start = Point { x: p0.x, y: p0.y };
            &&& ((forall|k: nat| !crate::pathfind::reach(&w0.map, start, t.x as int, t.y as int, k))
                ==> w1.positions@[e] == w0.positions@[e] && w1.viewsheds@[e] == w0.viewsheds@[e])
            &&& forall|n: nat| #[trigger] min_steps_is(&w0.map, start, t, n) ==> (if n == 0 {
                w1.positions@[e] == w0.positions@[e] && w1.viewsheds@[e] == w0.viewsheds@[e]
            } else {
                (w1.positions@[e] matches Some(q) && min_steps_is(
                    &w0.map,
                    Point { x: q.x, y: q.y },
                    t,
                    (n - 1) as nat,
                )) && (w1.viewsheds@[e] matches Some(nv) && nv.dirty && nv.range == w0.viewsheds@[
                    e
                ]->Some_0.range && nv.visible_tiles@ == w0.viewsheds@[e]->Some_0.visible_tiles@)
            })
        },
    }
}

/// The taunts of the pass: one log entry per driven monster standing next
/// to the player, in identifier order.
pub open spec fn ai_msgs_upto(w: &World, k: int) -> Seq<Seq<char>>
    decreases k,
{
    if k <= 0 {
        Seq::empty()
    } else {
        let pre = ai_msgs_upto(w, k - 1);
        if monster_acts(w, k - 1) && adjacent_to_player(w, k - 1) {
            pre.push(w.names@[k - 1]->Some_0.name@ + " shouts insults"@)
        } else {
            pre
        }
    }
}

/// The monster AI pass.
#[verifier::rlimit(100)]
#[verifier::spinoff_prover]
pub fn run_monster_ai(world: &mut World)
    requires
        old(world).wf(),
        old(world).map.in_map(old(world).player_pos.x as int, old(world).player_pos.y as int),
    ensures
        final(world).wf(),
        final(world).n() == old(world).n(),
        // entities the pass does not drive are untouched
        forall|e: int| 0 <= e < old(world).n() && !monster_acts(old(world), e) ==> {
            &&& #[trigger] final(world).positions@[e] == old(world).positions@[e]
            &&& final(world).monsters@[e] == old(world).monsters@[e]
            &&& final(world).viewsheds@[e] == old(world).viewsheds@[e]
        },
        // an adjacent monster taunts and stays put
        forall|e: int| 0 <= e < old(world).n() && monster_acts(old(world), e)
            && adjacent_to_player(old(world), e) ==> {
            &&& #[trigger] final(world).positions@[e] == old(world).positions@[e]
            &&& final(world).monsters@[e] == old(world).monsters@[e]
            &&& final(world).viewsheds@[e] == old(world).viewsheds@[e]
        },
        // otherwise memory is refreshed on sight and kept on blindness; a
        // monster whose remembered target is reachable in n >= 1 steps
        // moves to a tile exactly one step closer along a shortest path
        // and dirties its viewshed; with no memory, an unreachable target
        // or a target already underfoot it stays put
        forall|e: int| 0 <= e < old(world).n() && monster_acts(old(world), e)
            && !adjacent_to_player(old(world), e) ==> {
            &&& (#[trigger] final(world).monsters@[e]) == Some(
                Monster { memory: new_memory(old(world), e) },
            )
            &&& monster_move_spec(old(world), final(world), e)
        },
        // adjacent monsters taunt into the log, in identifier order
        crate::gamelog::log_view(final(world).log.entries@) == crate::gamelog::log_view(
            old(world).log.entries@,
        ) + ai_msgs_upto(old(world), old(world).n() as int),
        final(world).renderables@ == old(world).renderables@,
        final(world).players@ == old(world).players@,
        final(world).names@ == old(world).names@,
        final(world).blockers@ == old(world).blockers@,
        final(world).combat_stats@ == old(world).combat_stats@,
        final(world).wants_melee@ == old(world).wants_melee@,
        final(world).suffer_damage@ == old(world).suffer_damage@,
        final(world).items@ == old(world).items@,
        final(world).healing@ == old(world).healing@,
        final(world).backpacks@ == old(world).backpacks@,
        final(world).wants_pickup@ == old(world).wants_pickup@,
        final(world).wants_use@ == old(world).wants_use@,
        final(world).wants_drop@ == old(world).wants_drop@,
        final(world).consumables@ == old(world).consumables@,
        final(world).ranged@ == old(world).ranged@,
        final(world).inflicts_damage@ == old(world).inflicts_damage@,
        final(world).aoe@ == old(world).aoe@,
        final(world).confusion@ == old(world).confusion@,
        final(world).equippables@ == old(world).equippables@,
        final(world).equipped@ == old(world).equipped@,
        final(world).melee_bonuses@ == old(world).melee_bonuses@,
        final(world).defense_bonuses@ == old(world).defense_bonuses@,
        final(world).alive@ == old(world).alive@,
        final(world).pending_delete@ == old(world).pending_delete@,
        final(world).map == old(world).map,
        final(world).player == old(world).player,
        final(world).player_pos == old(world).player_pos,
{
    let n = world.alive.len();
    let mut e: usize = 0;
    while e < n
        invariant
            world.wf(),
            old(world).wf(),
            old(world).map.in_map(
                old(world).player_pos.x as int,
                old(world).player_pos.y as int,
            ),
            n == world.n(),
            n == old(world).n(),
            e <= n,
            forall|k: int| 0 <= k < n && !(k < e && monster_acts(old(world), k)
                && !adjacent_to_player(old(world), k)) ==> {
                &&& #[trigger] world.positions@[k] == old(world).positions@[k]
                &&& world.monsters@[k] == old(world).monsters@[k]
                &&& world.viewsheds@[k] == old(world).viewsheds@[k]
            },
            forall|k: int| 0 <= k < n && k < e && monster_acts(old(world), k)
                && !adjacent_to_player(old(world), k) ==> {
                &&& (#[trigger] world.monsters@[k]) == Some(
                    Monster { memory: new_memory(old(world), k) },
                )
                &&& monster_move_spec(old(world), world, k)
            },
            crate::gamelog::log_view(world.log.entries@) == crate::gamelog::log_view(
                old(world).log.entries@,
            ) + ai_msgs_upto(old(world), e as int),
            world.renderables@ == old(world).renderables@,
            world.players@ == old(world).players@,
            world.names@ == old(world).names@,
            world.blockers@ == old(world).blockers@,
            world.combat_stats@ == old(world).combat_stats@,
            world.wants_melee@ == old(world).wants_melee@,
            world.suffer_damage@ == old(world).suffer_damage@,
            world.items@ == old(world).items@,
            world.healing@ == old(world).healing@,
            world.backpacks@ == old(world).backpacks@,
            world.wants_pickup@ == old(world).wants_pickup@,
            world.wants_use@ == old(world).wants_use@,
            world.wants_drop@ == old(world).wants_drop@,
            world.consumables@ == old(world).consumables@,
            world.ranged@ == old(world).ranged@,
            world.inflicts_damage@ == old(world).inflicts_damage@,
            world.aoe@ == old(world).aoe@,
            world.confusion@ == old(world).confusion@,
            world.equippables@ == old(world).equippables@,
            world.equipped@ == old(world).equipped@,
            world.melee_bonuses@ == old(world).melee_bonuses@,
            world.defense_bonuses@ == old(world).defense_bonuses@,
            world.alive@ == old(world).alive@,
            world.pending_delete@ == old(world).pending_delete@,
            world.map == old(world).map,
            world.player == old(world).player,
            world.player_pos == old(world).player_pos,
        decreases n - e,
    {
        let ghost wpre = *world;
        let ent = Entity { id: e };
        let acts = world.monsters.has(ent) && world.viewsheds.has(ent) && world.names.has(ent)
            && world.positions.has(ent);
        proof {
            assert(world.positions@[e as int] == old(world).positions@[e as int]);
            assert(world.monsters@[e as int] == old(world).monsters@[e as int]);
            assert(world.viewsheds@[e as int] == old(world).viewsheds@[e as int]);
            assert(acts == monster_acts(old(world), e as int));
        }
        if acts {
            let p0 = *world.positions.get(ent).unwrap();
            let pp = world.player_pos;
            let dx = (p0.x as i64) - (pp.x as i64);
            let dy = (p0.y as i64) - (pp.y as i64);
            proof {
                assert(0 <= dx * dx <= 4611686014132420609 && 0 <= dy * dy
                    <= 4611686014132420609) by (nonlinear_arith)
                    requires
                        -2147483647 <= dx <= 2147483647,
                        -2147483647 <= dy <= 2147483647,
                ;
            }
            let close = dx * dx + dy * dy <= 2;
            proof {
                assert(close == adjacent_to_player(old(world), e as int));
            }
            if close {
                // Adjacent: the monster taunts instead of moving. Attack is
                // a stated extension point, not implemented damage.
                let nm = world.names.get(ent).unwrap().name.clone();
                proof {
                    reveal_strlit(" shouts insults");
                }
                let mut msg = String::new();
                msg.append(nm.as_str());
                msg.append(" shouts insults");
                world.log.push(msg);
                proof {
                    assert(crate::gamelog::log_view(world.log.entries@)
                        =~= crate::gamelog::log_view(old(world).log.entries@) + ai_msgs_upto(
                        old(world),
                        e + 1,
                    ));
                }
            } else {
                let vs = world.viewsheds.get(ent).unwrap();
                let sees = points_contain(&vs.visible_tiles, pp);
                let mem0 = world.monsters.get(ent).unwrap().memory;
                let mem: Option<Point> = if sees {
                    Some(pp)
                } else {
                    mem0
                };
                world.monsters.insert(ent, Monster { memory: mem });
                proof {
                    assert(mem == new_memory(old(world), e as int));
                }
                let ghost vs0 = old(world).viewsheds@[e as int]->Some_0;
                match mem {
                    Some(t) => {
                        let start = Point { x: p0.x, y: p0.y };
                        let path = shortest_path(&world.map, start, t);
                        match path {
                            Some(p) => {
                                if p.len() > 1 {
                                    let step = p[1];
                                    world.positions.insert(
                                        ent,
                                        Position { x: step.x, y: step.y },
                                    );
                                    let vs2 = world.viewsheds.get(ent).unwrap();
                                    let nv = Viewshed {
                                        visible_tiles: vs2.visible_tiles.clone(),
                                        range: vs2.range,
                                        dirty: true,
                                    };
                                    world.viewsheds.insert(ent, nv);
                                    proof {
                                        crate::pathfind::lemma_step_closer(
                                            &old(world).map,
                                            p@,
                                            start,
                                            t,
                                        );
                                        let ghost nn = (p@.len() - 1) as nat;
                                        assert(min_steps_is(&old(world).map, start, t, nn));
                                        assert(nn >= 1);
                                        assert(world.positions@[e as int] matches Some(q)
                                            && min_steps_is(
                                            &old(world).map,
                                            Point { x: q.x, y: q.y },
                                            t,
                                            (nn - 1) as nat,
                                        )) by {
                                            assert(p@[1] == step);
                                        }
                                        assert(nv.visible_tiles@ =~= vs0.visible_tiles@);
                                        assert(monster_move_spec(
                                            old(world),
                                            world,
                                            e as int,
                                        )) by {
                                            assert forall|n2: nat| #[trigger] min_steps_is(
                                                &old(world).map,
                                                start,
                                                t,
                                                n2,
                                            ) implies n2 == nn by {
                                                if n2 < nn {
                                                    assert(crate::pathfind::reach(
                                                        &old(world).map,
                                                        start,
                                                        t.x as int,
                                                        t.y as int,
                                                        n2,
                                                    ));
                                                } else if n2 > nn {
                                                    assert(!crate::pathfind::reach(
                                                        &old(world).map,
                                                        start,
                                                        t.x as int,
                                                        t.y as int,
                                                        nn,
                                                    ));
                                                }
                                            }
                                        }
                                    }
                                } else {
                                    // a trivial path: the target is underfoot
                                    proof {
                                        assert(p@.len() == 1);
                                        assert(min_steps_is(&old(world).map, start, t, 0nat));
                                        assert(monster_move_spec(
                                            old(world),
                                            world,
                                            e as int,
                                        )) by {
                                            assert forall|n2: nat| #[trigger] min_steps_is(
                                                &old(world).map,
                                                start,
                                                t,
                                                n2,
                                            ) implies n2 == 0 by {
                                                if n2 > 0 {
                                                    assert(!crate::pathfind::reach(
                                                        &old(world).map,
                                                        start,
                                                        t.x as int,
                                                        t.y as int,
                                                        0nat,
                                                    ));
                                                }
                                            }
                                        }
                                    }
                                }
                            }
                            None => {
                                // no route: stand still, no error
                                proof {
                                    assert(monster_move_spec(old(world), world, e as int)) by {
                                        assert forall|n2: nat| !(#[trigger] min_steps_is(
                                            &old(world).map,
                                            start,
                                            t,
                                            n2,
                                        )) by {
                                            if min_steps_is(&old(world).map, start, t, n2) {
                                                assert(crate::pathfind::reach(
                                                    &old(world).map,
                                                    start,
                                                    t.x as int,
                                                    t.y as int,
                                                    n2,
                                                ));
                                                assert(false);
                                            }
                                        }
                                    }
                                }
                            }
                        }
                    }
                    None => {
                        proof {
                            assert(monster_move_spec(old(world), world, e as int));
                        }
                    }
                }
                proof {
                    assert(ai_msgs_upto(old(world), e + 1) == ai_msgs_upto(
                        old(world),
                        e as int,
                    ));
                }
            }
        } else {
            proof {
                assert(ai_msgs_upto(old(world), e + 1) == ai_msgs_upto(old(world), e as int));
            }
        }
        e += 1;
        proof {
            assert forall|k: int| 0 <= k < n && !(k < e && monster_acts(old(world), k)
                && !adjacent_to_player(old(world), k)) implies {
                &&& #[trigger] world.positions@[k] == old(world).positions@[k]
                &&& world.monsters@[k] == old(world).monsters@[k]
                &&& world.viewsheds@[k] == old(world).viewsheds@[k]
            } by {
                if k != e - 1 {
                    assert(world.positions@[k] == wpre.positions@[k]);
                    assert(world.monsters@[k] == wpre.monsters@[k]);
                    assert(world.viewsheds@[k] == wpre.viewsheds@[k]);
                } else {
                    assert(!(monster_acts(old(world), k) && !adjacent_to_player(
                        old(world),
                        k,
                    )));
                    assert(world.positions@[k] == wpre.positions@[k]);
                    assert(world.monsters@[k] == wpre.monsters@[k]);
                    assert(world.viewsheds@[k] == wpre.viewsheds@[k]);
                }
            }
        }
    }
    proof {
        assert forall|e2: int| 0 <= e2 < old(world).n() && !monster_acts(old(world), e2)
            implies {
            &&& #[trigger] world.positions@[e2] == old(world).positions@[e2]
            &&& world.monsters@[e2] == old(world).monsters@[e2]
            &&& world.viewsheds@[e2] == old(world).viewsheds@[e2]
        } by {
            assert(forall|k: int|
                0 <= k < n && !(k < e && monster_acts(old(world), k) && !adjacent_to_player(
                    old(world),
                    k,
                )) ==> {
                    &&& #[trigger] world.positions@[k] == old(world).positions@[k]
                    &&& world.monsters@[k] == old(world).monsters@[k]
                    &&& world.viewsheds@[k] == old(world).viewsheds@[k]
                });
            assert(!(e2 < n && monster_acts(old(world), e2) && !adjacent_to_player(
                old(world),
                e2,
            )));
        }
        assert forall|e2: int| 0 <= e2 < old(world).n() && monster_acts(old(world), e2)
            && adjacent_to_player(old(world), e2) implies {
            &&& #[trigger] world.positions@[e2] == old(world).positions@[e2]
            &&& world.monsters@[e2] == old(world).monsters@[e2]
            &&& world.viewsheds@[e2] == old(world).viewsheds@[e2]
        } by {
            assert(!(e2 < n && monster_acts(old(world), e2) && !adjacent_to_player(
                old(world),
                e2,
            )));
        }
    }
}

} // verus!
