//! Damage resolution and the death sweep. Accrued damage is subtracted
//! from hit points in one go (hit points may go negative here); afterwards
//! the sweep removes every entity whose hit points fell to zero or below,
//! except the designated player, whose death is surfaced in the log as a
//! game-over condition instead.

use vstd::prelude::*;
use crate::components::{CombatStats, SufferDamage, sd_amounts};
use crate::store::{Entity, entry};
use crate::world::World;

verus! {

/// The mathematical sum of a damage accrual buffer.
pub open spec fn sum_amounts(s: Seq<i32>) -> int
    decreases s.len(),
{
    if s.len() == 0 {
        0
    } else {
        sum_amounts(s.drop_last()) + s.last()
    }
}

/// Clamping an unbounded result into the i32 range.
pub open spec fn clamp_i32(v: int) -> int {
    if v > i32::MAX {
        i32::MAX as int
    } else if v < i32::MIN {
        i32::MIN as int
    } else {
        v
    }
}

/// An entity the death sweep removes: it has combat stats and its hit
/// points fell below one.
pub open spec fn dead_entity(w: &World, e: int) -> bool {
    entry(w.combat_stats@, e) matches Some(s) && s.hp < 1
}

proof fn lemma_sum_prefix_bound(s: Seq<i32>, i: int)
    requires
        0 <= i <= s.len(),
        forall|j: int| 0 <= j < s.len() ==> s[j] >= 0,
    ensures
        sum_amounts(s.subrange(0, i)) <= sum_amounts(s),
        0 <= sum_amounts(s.subrange(0, i)),
    decreases s.len() - i,
{
    assert(forall|j: int| 0 <= j < i ==> s.subrange(0, i)[j] >= 0);
    lemma_sum_nonneg(s.subrange(0, i));
    if i == s.len() {
        assert(s.subrange(0, i) =~= s);
        lemma_sum_nonneg(s);
    } else {
        lemma_sum_prefix_bound(s, i + 1);
        assert(s.subrange(0, i + 1).drop_last() =~= s.subrange(0, i));
        assert(sum_amounts(s.subrange(0, i + 1)) == sum_amounts(s.subrange(0, i)) + s[i]);
    }
}

proof fn lemma_sum_nonneg(s: Seq<i32>)
    requires
        forall|j: int| 0 <= j < s.len() ==> s[j] >= 0,
    ensures
        sum_amounts(s) >= 0,
    decreases s.len(),
{
    if s.len() > 0 {
        lemma_sum_nonneg(s.drop_last());
    }
}

/// Subtract the whole accrual buffer from the victim's hit points, clamped
/// into the representable range, the amount never carried over.
fn apply_damage_to(stats: CombatStats, amounts: &Vec<i32>) -> (r: CombatStats)
    requires
        forall|j: int| 0 <= j < amounts@.len() ==> amounts@[j] >= 0,
    ensures
        r.hp == clamp_i32(stats.hp - sum_amounts(amounts@)),
        r.max_hp == stats.max_hp,
        r.defense == stats.defense,
        r.power == stats.power,
{
    let n = amounts.len();
    let mut acc: i64 = 0;
    let mut j: usize = 0;
    while j < n
        invariant
            n == amounts@.len(),
            j <= n,
            forall|k: int| 0 <= k < n ==> amounts@[k] >= 0,
            0 <= acc <= 4294967296 + 2147483647,
            acc == sum_amounts(amounts@.subrange(0, j as int)) || (acc >= 4294967296
                && sum_amounts(amounts@.subrange(0, j as int)) >= acc),
        decreases n - j,
    {
        let a = amounts[j];
        proof {
            assert(amounts@.subrange(0, j + 1).drop_last() =~= amounts@.subrange(0, j as int));
            lemma_sum_prefix_bound(amounts@, j as int);
        }
        if acc < 4294967296 {
            acc = acc + (a as i64);
        }
        j += 1;
    }
    proof {
        assert(amounts@.subrange(0, n as int) =~= amounts@);
        lemma_sum_nonneg(amounts@);
    }
    let hp64: i64 = (stats.hp as i64) - acc;
    let new_hp: i32 = if hp64 > (i32::MAX as i64) {
        i32::MAX
    } else if hp64 < (i32::MIN as i64) {
        i32::MIN
    } else {
        hp64 as i32
    };
    CombatStats { max_hp: stats.max_hp, hp: new_hp, defense: stats.defense, power: stats.power }
}

/// The damage pass: for every entity holding both combat stats and a damage
/// accrual, subtract the summed pending amounts from its hit points and
/// consume the accrual. Hit points may go negative; the death sweep deals
/// with those. Healing having clamped at max_hp and amounts being
/// non-negative, no survivor ends above its maximum.
pub fn run_damage(world: &mut World)
    requires
        old(world).wf(),
    ensures
        final(world).wf(),
        final(world).n() == old(world).n(),
        forall|e: int| 0 <= e < old(world).n() ==> #[trigger] final(world).combat_stats@[e]
            == (match (old(world).combat_stats@[e], old(world).suffer_damage@[e]) {
            (Some(s), Some(sd)) => Some(
                CombatStats {
                    max_hp: s.max_hp,
                    hp: clamp_i32(s.hp - sum_amounts(sd.amount@)) as i32,
                    defense: s.defense,
                    power: s.power,
                },
            ),
            _ => old(world).combat_stats@[e],
        }),
        forall|e: int| 0 <= e < old(world).n() ==> #[trigger] final(world).suffer_damage@[e]
            == (if old(world).combat_stats@[e] is Some {
            None
        } else {
            old(world).suffer_damage@[e]
        }),
        final(world).positions@ == old(world).positions@,
        final(world).renderables@ == old(world).renderables@,
        final(world).players@ == old(world).players@,
        final(world).monsters@ == old(world).monsters@,
        final(world).viewsheds@ == old(world).viewsheds@,
        final(world).names@ == old(world).names@,
        final(world).blockers@ == old(world).blockers@,
        final(world).wants_melee@ == old(world).wants_melee@,
        final(world).items@ == old(world).items@,
        final(world).healing@ == old(world).healing@,
        final(world).backpacks@ == old(world).backpacks@,
        final(world).wants_pickup@ == old(world).wants_pickup@,
        final(world).wants_use@ == old(world).wants_use@,
        final(world).wants_drop@ == old(world).wants_drop@,
        final(world).consumables@ == old(world).consumables@,
        final(world).ranged@ == old(world).ranged@,
        final(world).inflicts_damage@ == old(world).inflicts_damage@,
        final(world).aoe@ == old(world).aoe@,
        final(world).confusion@ == old(world).confusion@,
        final(world).equippables@ == old(world).equippables@,
        final(world).equipped@ == old(world).equipped@,
        final(world).melee_bonuses@ == old(world).melee_bonuses@,
        final(world).defense_bonuses@ == old(world).defense_bonuses@,
        final(world).alive@ == old(world).alive@,
        final(world).pending_delete@ == old(world).pending_delete@,
        final(world).map == old(world).map,
        final(world).log == old(world).log,
        final(world).player == old(world).player,
        final(world).player_pos == old(world).player_pos,
{
    let n = world.alive.len();
    let mut e: usize = 0;
    while e < n
        invariant
            world.wf(),
            old(world).wf(),
            n == world.n(),
            n == old(world).n(),
            e <= n,
            forall|k: int| 0 <= k < n ==> #[trigger] world.combat_stats@[k] == (if k < e {
                match (old(world).combat_stats@[k], old(world).suffer_damage@[k]) {
                    (Some(s), Some(sd)) => Some(
                        CombatStats {
                            max_hp: s.max_hp,
                            hp: clamp_i32(s.hp - sum_amounts(sd.amount@)) as i32,
                            defense: s.defense,
                            power: s.power,
                        },
                    ),
                    _ => old(world).combat_stats@[k],
                }
            } else {
                old(world).combat_stats@[k]
            }),
            forall|k: int| 0 <= k < n ==> #[trigger] world.suffer_damage@[k] == (if k < e
                && old(world).combat_stats@[k] is Some {
                None
            } else {
                old(world).suffer_damage@[k]
            }),
            world.positions@ == old(world).positions@,
            world.renderables@ == old(world).renderables@,
            world.players@ == old(world).players@,
            world.monsters@ == old(world).monsters@,
            world.viewsheds@ == old(world).viewsheds@,
            world.names@ == old(world).names@,
            world.blockers@ == old(world).blockers@,
            world.wants_melee@ == old(world).wants_melee@,
            world.items@ == old(world).items@,
            world.healing@ == old(world).healing@,
            world.backpacks@ == old(world).backpacks@,
            world.wants_pickup@ == old(world).wants_pickup@,
            world.wants_drop@ == old(world).wants_drop@,
            world.wants_use@ == old(world).wants_use@,
            world.consumables@ == old(world).consumables@,
            world.ranged@ == old(world).ranged@,
            world.inflicts_damage@ == old(world).inflicts_damage@,
            world.aoe@ == old(world).aoe@,
            world.confusion@ == old(world).confusion@,
            world.equippables@ == old(world).equippables@,
            world.equipped@ == old(world).equipped@,
            world.melee_bonuses@ == old(world).melee_bonuses@,
            world.defense_bonuses@ == old(world).defense_bonuses@,
            world.alive@ == old(world).alive@,
            world.pending_delete@ == old(world).pending_delete@,
            world.map == old(world).map,
            world.log == old(world).log,
            world.player == old(world).player,
            world.player_pos == old(world).player_pos,
        decreases n - e,
    {
        let ent = Entity { id: e };
        let stats_opt = world.combat_stats.get(ent);
        let has_stats = stats_opt.is_some();
        let stats = if has_stats {
            *stats_opt.unwrap()
        } else {
            CombatStats { max_hp: 0, hp: 0, defense: 0, power: 0 }
        };
        if has_stats {
            let dmg_opt = world.suffer_damage.get(ent);
            match dmg_opt {
                Some(sd) => {
                    let amounts = sd.amount.clone();
                    proof {
                        assert(amounts@ =~= sd.amount@);
                        assert(world.suffer_damage@[e as int] == Some(*sd));
                        assert(world.damage_ok());
                        assert(match world.suffer_damage@[e as int] {
                            Some(sd2) => forall|j: int|
                                0 <= j < sd2.amount@.len() ==> sd2.amount@[j] >= 0,
                            None => true,
                        });
                        assert(forall|j: int| 0 <= j < (*sd).amount@.len() ==> (*sd).amount@[j]
                            >= 0);
                        assert(forall|j: int| 0 <= j < amounts@.len() ==> amounts@[j] >= 0);
                        lemma_sum_nonneg(amounts@);
                    }
                    let updated = apply_damage_to(stats, &amounts);
                    proof {
                        assert(updated.hp <= updated.max_hp);
                    }
                    world.combat_stats.insert(ent, updated);
                }
                None => {}
            }
            world.suffer_damage.remove(ent);
        }
        e += 1;
    }
}

/// The death sweep: delete every entity whose hit points fell below one,
/// except the designated player, whose death is reported in the log. After
/// the sweep every surviving entity with combat stats other than the player
/// has 1 <= hp <= max_hp: the two clamps hold of everything still standing.
pub fn delete_the_dead(world: &mut World)
    requires
        old(world).wf(),
    ensures
        final(world).wf(),
        final(world).n() == old(world).n(),
        forall|k: int| 0 <= k < old(world).n() && k != old(world).player.id && dead_entity(
            old(world),
            k,
        ) ==> World::no_components_at(final(world), k) && final(world).alive@[k] == false,
        forall|k: int| 0 <= k < old(world).n() && !(k != old(world).player.id && dead_entity(
            old(world),
            k,
        )) ==> World::same_components_at(old(world), final(world), k) && final(world).alive@[k]
            == old(world).alive@[k],
        forall|k: int| 0 <= k < old(world).n() ==> #[trigger] final(world).pending_delete@[k]
            == (if k != old(world).player.id && dead_entity(old(world), k) {
            false
        } else {
            old(world).pending_delete@[k]
        }),
        forall|k: int| (0 <= k < old(world).n() && k != old(world).player.id
            && (#[trigger] entry(final(world).combat_stats@, k) matches Some(s))) ==> (entry(
            final(world).combat_stats@,
            k,
        ) matches Some(s) && 1 <= s.hp <= s.max_hp),
        crate::gamelog::log_view(final(world).log.entries@) == (if old(world).player.id
            < old(world).n() && dead_entity(old(world), old(world).player.id as int) {
            crate::gamelog::log_view(old(world).log.entries@).push("You are dead"@)
        } else {
            crate::gamelog::log_view(old(world).log.entries@)
        }),
        final(world).map == old(world).map,
        final(world).player == old(world).player,
        final(world).player_pos == old(world).player_pos,
{
    let n = world.alive.len();
    let mut i: usize = 0;
    while i < n
        invariant
            world.wf(),
            old(world).wf(),
            n == world.n(),
            n == old(world).n(),
            i <= n,
            world.player == old(world).player,
            forall|k: int| 0 <= k < n ==> #[trigger] world.alive@[k] == (if k < i && k
                != old(world).player.id && dead_entity(old(world), k) {
                false
            } else {
                old(world).alive@[k]
            }),
            forall|k: int| 0 <= k < n ==> #[trigger] world.pending_delete@[k] == (if k < i && k
                != old(world).player.id && dead_entity(old(world), k) {
                false
            } else {
                old(world).pending_delete@[k]
            }),
                forall|k: int| 0 <= k < n ==> #[trigger] world.positions@[k] == (if k < i
                    && k != old(world).player.id && dead_entity(old(world), k) {
                    None
                } else {
                    old(world).positions@[k]
                }),
                forall|k: int| 0 <= k < n ==> #[trigger] world.renderables@[k] == (if k < i
                    && k != old(world).player.id && dead_entity(old(world), k) {
                    None
                } else {
                    old(world).renderables@[k]
                }),
                forall|k: int| 0 <= k < n ==> #[trigger] world.players@[k] == (if k < i
                    && k != old(world).player.id && dead_entity(old(world), k) {
                    None
                } else {
                    old(world).players@[k]
                }),
                forall|k: int| 0 <= k < n ==> #[trigger] world.monsters@[k] == (if k < i
                    && k != old(world).player.id && dead_entity(old(world), k) {
                    None
                } else {
                    old(world).monsters@[k]
                }),
                forall|k: int| 0 <= k < n ==> #[trigger] world.viewsheds@[k] == (if k < i
                    && k != old(world).player.id && dead_entity(old(world), k) {
                    None
                } else {
                    old(world).viewsheds@[k]
                }),
                forall|k: int| 0 <= k < n ==> #[trigger] world.names@[k] == (if k < i
                    && k != old(world).player.id && dead_entity(old(world), k) {
                    None
                } else {
                    old(world).names@[k]
                }),
                forall|k: int| 0 <= k < n ==> #[trigger] world.blockers@[k] == (if k < i
                    && k != old(world).player.id && dead_entity(old(world), k) {
                    None
                } else {
                    old(world).blockers@[k]
                }),
                forall|k: int| 0 <= k < n ==> #[trigger] world.combat_stats@[k] == (if k < i
                    && k != old(world).player.id && dead_entity(old(world), k) {
                    None
                } else {
                    old(world).combat_stats@[k]
                }),
                forall|k: int| 0 <= k < n ==> #[trigger] world.wants_melee@[k] == (if k < i
                    && k != old(world).player.id && dead_entity(old(world), k) {
                    None
                } else {
                    old(world).wants_melee@[k]
                }),
                forall|k: int| 0 <= k < n ==> #[trigger] world.suffer_damage@[k] == (if k < i
                    && k != old(world).player.id && dead_entity(old(world), k) {
                    None
                } else {
                    old(world).suffer_damage@[k]
                }),
                forall|k: int| 0 <= k < n ==> #[trigger] world.items@[k] == (if k < i
                    && k != old(world).player.id && dead_entity(old(world), k) {
                    None
                } else {
                    old(world).items@[k]
                }),
                forall|k: int| 0 <= k < n ==> #[trigger] world.healing@[k] == (if k < i
                    && k != old(world).player.id && dead_entity(old(world), k) {
                    None
                } else {
                    old(world).healing@[k]
                }),
                forall|k: int| 0 <= k < n ==> #[trigger] world.backpacks@[k] == (if k < i
                    && k != old(world).player.id && dead_entity(old(world), k) {
                    None
                } else {
                    old(world).backpacks@[k]
                }),
                forall|k: int| 0 <= k < n ==> #[trigger] world.wants_pickup@[k] == (if k < i
                    && k != old(world).player.id && dead_entity(old(world), k) {
                    None
                } else {
                    old(world).wants_pickup@[k]
                }),
                forall|k: int| 0 <= k < n ==> #[trigger] world.wants_use@[k] == (if k < i
                    && k != old(world).player.id && dead_entity(old(world), k) {
                    None
                } else {
                    old(world).wants_use@[k]
                }),
                forall|k: int| 0 <= k < n ==> #[trigger] world.wants_drop@[k] == (if k < i
                    && k != old(world).player.id && dead_entity(old(world), k) {
                    None
                } else {
                    old(world).wants_drop@[k]
                }),
                forall|k: int| 0 <= k < n ==> #[trigger] world.consumables@[k] == (if k < i
                    && k != old(world).player.id && dead_entity(old(world), k) {
                    None
                } else {
                    old(world).consumables@[k]
                }),
                forall|k: int| 0 <= k < n ==> #[trigger] world.ranged@[k] == (if k < i
                    && k != old(world).player.id && dead_entity(old(world), k) {
                    None
                } else {
                    old(world).ranged@[k]
                }),
                forall|k: int| 0 <= k < n ==> #[trigger] world.inflicts_damage@[k] == (if k < i
                    && k != old(world).player.id && dead_entity(old(world), k) {
                    None
                } else {
                    old(world).inflicts_damage@[k]
                }),
                forall|k: int| 0 <= k < n ==> #[trigger] world.aoe@[k] == (if k < i
                    && k != old(world).player.id && dead_entity(old(world), k) {
                    None
                } else {
                    old(world).aoe@[k]
                }),
                forall|k: int| 0 <= k < n ==> #[trigger] world.confusion@[k] == (if k < i
                    && k != old(world).player.id && dead_entity(old(world), k) {
                    None
                } else {
                    old(world).confusion@[k]
                }),
                forall|k: int| 0 <= k < n ==> #[trigger] world.equippables@[k] == (if k < i
                    && k != old(world).player.id && dead_entity(old(world), k) {
                    None
                } else {
                    old(world).equippables@[k]
                }),
                forall|k: int| 0 <= k < n ==> #[trigger] world.equipped@[k] == (if k < i
                    && k != old(world).player.id && dead_entity(old(world), k) {
                    None
                } else {
                    old(world).equipped@[k]
                }),
                forall|k: int| 0 <= k < n ==> #[trigger] world.melee_bonuses@[k] == (if k < i
                    && k != old(world).player.id && dead_entity(old(world), k) {
                    None
                } else {
                    old(world).melee_bonuses@[k]
                }),
                forall|k: int| 0 <= k < n ==> #[trigger] world.defense_bonuses@[k] == (if k < i
                    && k != old(world).player.id && dead_entity(old(world), k) {
                    None
                } else {
                    old(world).defense_bonuses@[k]
                }),
            world.map == old(world).map,
            world.log == old(world).log,
            world.player_pos == old(world).player_pos,
        decreases n - i,
    {
        let e = Entity { id: i };
        let ghost wpre = *world;
        let is_player = i == world.player.id;
        let mut is_dead = false;
        match world.combat_stats.get(e) {
            Some(s) => {
                if s.hp < 1 {
                    is_dead = true;
                }
            }
            None => {}
        }
        proof {
            assert(entry(wpre.combat_stats@, i as int) == wpre.combat_stats@[i as int]);
            assert(wpre.combat_stats@[i as int] == old(world).combat_stats@[i as int]);
            assert(entry(old(world).combat_stats@, i as int) == old(world).combat_stats@[
                i as int
            ]);
            assert(is_dead == dead_entity(old(world), i as int));
        }
        if is_dead && !is_player {
            world.alive[i] = false;
            world.pending_delete[i] = false;
                world.positions.remove(e);
                world.renderables.remove(e);
                world.players.remove(e);
                world.monsters.remove(e);
                world.viewsheds.remove(e);
                world.names.remove(e);
                world.blockers.remove(e);
                world.combat_stats.remove(e);
                world.wants_melee.remove(e);
                world.suffer_damage.remove(e);
                world.items.remove(e);
                world.healing.remove(e);
                world.backpacks.remove(e);
                world.wants_pickup.remove(e);
                world.wants_use.remove(e);
                world.wants_drop.remove(e);
                world.consumables.remove(e);
                world.ranged.remove(e);
                world.inflicts_damage.remove(e);
                world.aoe.remove(e);
                world.confusion.remove(e);
                world.equippables.remove(e);
                world.equipped.remove(e);
                world.melee_bonuses.remove(e);
                world.defense_bonuses.remove(e);
        }
        proof {
            assert forall|k: int| 0 <= k < n implies #[trigger] world.alive@[k] == (if k < i + 1
                && k != old(world).player.id && dead_entity(old(world), k) {
                false
            } else {
                old(world).alive@[k]
            }) by {
                if k == i {
                    assert(wpre.combat_stats@[k] == old(world).combat_stats@[k]);
                    assert(dead_entity(old(world), k) == is_dead);
                } else {
                    assert(world.alive@[k] == wpre.alive@[k]);
                }
            }
            assert forall|k: int| 0 <= k < n implies #[trigger] world.pending_delete@[k] == (if k
                < i + 1 && k != old(world).player.id && dead_entity(old(world), k) {
                false
            } else {
                old(world).pending_delete@[k]
            }) by {
                if k == i {
                    assert(wpre.combat_stats@[k] == old(world).combat_stats@[k]);
                    assert(dead_entity(old(world), k) == is_dead);
                } else {
                    assert(world.pending_delete@[k] == wpre.pending_delete@[k]);
                }
            }
        }
        i += 1;
    }
    let player = world.player;
    let mut player_dead = false;
    if player.id < n {
        match world.combat_stats.get(player) {
            Some(s) => {
                if s.hp < 1 {
                    player_dead = true;
                }
            }
            None => {}
        }
    }
    if player_dead {
        proof {
            assert(entry(world.combat_stats@, player.id as int) == entry(
                old(world).combat_stats@,
                player.id as int,
            ));
        }
        let msg = String::from_str("You are dead");
        world.log.push(msg);
    }
}

} // verus!
