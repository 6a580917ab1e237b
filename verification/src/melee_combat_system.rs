//! The melee combat system: resolves attack intents into damage accruals,
//! applying the attacker's equipped offensive bonuses and the defender's
//! equipped defensive bonuses. Damage never mutates hit points directly;
//! it is deferred to the damage system. All intents are cleared at the end
//! of the pass, stale ones silently.

use vstd::prelude::*;
use crate::components::{CombatStats, SufferDamage, sd_amounts};
use crate::gamelog::{dec_i32, log_view};
use crate::store::{Entity, entry};
use crate::world::World;

verus! {

/// Summed power bonus of every item equipped by entity `a`, over the first
/// `n` item identifiers.
pub open spec fn offense_bonus_upto(w: &World, a: int, n: int) -> int
    decreases n,
{
    if n <= 0 {
        0
    } else {
        offense_bonus_upto(w, a, n - 1) + (match (w.melee_bonuses@[n - 1], w.equipped@[n - 1]) {
            (Some(b), Some(eq)) => if eq.owner.id == a {
                b.power as int
            } else {
                0
            },
            _ => 0,
        })
    }
}

/// Summed defense bonus of every item equipped by entity `t`, over the
/// first `n` item identifiers.
pub open spec fn defense_bonus_upto(w: &World, t: int, n: int) -> int
    decreases n,
{
    if n <= 0 {
        0
    } else {
        defense_bonus_upto(w, t, n - 1) + (match (w.defense_bonuses@[n - 1], w.equipped@[n - 1]) {
            (Some(b), Some(eq)) => if eq.owner.id == t {
                b.defense as int
            } else {
                0
            },
            _ => 0,
        })
    }
}

/// Attacker `a` takes part in this pass: it holds an intent, a name and
/// combat stats, and is itself still standing.
pub open spec fn attacker_live(w: &World, a: int) -> bool {
    &&& w.wants_melee@[a] is Some
    &&& w.names@[a] is Some
    &&& w.combat_stats@[a] matches Some(sa) && sa.hp > 0
}

/// The identifier the attack of `a` is aimed at.
pub open spec fn melee_target(w: &World, a: int) -> int {
    w.wants_melee@[a]->Some_0.target.id as int
}

/// The attack of `a` resolves: the attacker is live and the defender is
/// still standing too.
pub open spec fn attack_resolves(w: &World, a: int) -> bool {
    &&& attacker_live(w, a)
    &&& entry(w.combat_stats@, melee_target(w, a)) matches Some(st) && st.hp > 0
}

/// Effective damage of a resolved attack: attacker power plus offensive
/// bonus, minus defender defense plus defensive bonus, floored at zero and
/// clamped into i32 range.
pub open spec fn melee_damage(w: &World, a: int) -> int {
    let sa = w.combat_stats@[a]->Some_0;
    let st = entry(w.combat_stats@, melee_target(w, a))->Some_0;
    let raw = (sa.power + offense_bonus_upto(w, a, w.n())) - (st.defense + defense_bonus_upto(
        w,
        melee_target(w, a),
        w.n(),
    ));
    if raw <= 0 {
        0
    } else if raw > i32::MAX {
        i32::MAX as int
    } else {
        raw
    }
}

/// The log entry for a landed hit.
pub open spec fn hit_msg(an: Seq<char>, tn: Seq<char>, dmg: int) -> Seq<char> {
    an + " hits "@ + tn + " for "@ + dec_i32(dmg) + " hp."@
}

/// The log entry for an attack that did no damage.
pub open spec fn unable_msg(an: Seq<char>, tn: Seq<char>) -> Seq<char> {
    an + " is unable to hurt "@ + tn
}

/// The message an attack of `a` produces, hit or no-hit.
pub open spec fn melee_msg_of(w: &World, a: int) -> Seq<char> {
    let an = w.names@[a]->Some_0.name@;
    let tn = entry(w.names@, melee_target(w, a))->Some_0.name@;
    if melee_damage(w, a) == 0 {
        unable_msg(an, tn)
    } else {
        hit_msg(an, tn, melee_damage(w, a))
    }
}

/// The messages of the whole pass, in attacker identifier order.
pub open spec fn melee_msgs_upto(w: &World, a: int) -> Seq<Seq<char>>
    decreases a,
{
    if a <= 0 {
        Seq::empty()
    } else {
        let pre = melee_msgs_upto(w, a - 1);
        if attack_resolves(w, a - 1) {
            pre.push(melee_msg_of(w, a - 1))
        } else {
            pre
        }
    }
}

/// The damage amounts appended to defender `t` this pass, in attacker
/// identifier order.
pub open spec fn melee_dmg_seq(w: &World, t: int, a: int) -> Seq<i32>
    decreases a,
{
    if a <= 0 {
        Seq::empty()
    } else {
        let pre = melee_dmg_seq(w, t, a - 1);
        if attack_resolves(w, a - 1) && melee_target(w, a - 1) == t && melee_damage(w, a - 1)
            > 0 {
            pre.push(melee_damage(w, a - 1) as i32)
        } else {
            pre
        }
    }
}

/// The unwraps the pass performs are total: every live attacker's target
/// carries combat stats, and a name when the fight actually happens.
pub open spec fn melee_intents_wf(w: &World) -> bool {
    forall|a: int|
        0 <= a < w.n() && #[trigger] attacker_live(w, a) ==> {
            &&& entry(w.combat_stats@, melee_target(w, a)) is Some
            &&& (attack_resolves(w, a) ==> entry(w.names@, melee_target(w, a)) is Some)
        }
}

fn sum_offense_bonus(world: &World, a: Entity) -> (r: i64)
    requires
        world.wf(),
    ensures
        r == offense_bonus_upto(world, a.id as int, world.n()),
        -2305843009213693952 <= r <= 2305843009213693952,
{
    let n = world.alive.len();
    let mut acc: i64 = 0;
    let mut i: usize = 0;
    while i < n
        invariant
            world.wf(),
            n == world.n(),
            i <= n,
            acc == offense_bonus_upto(world, a.id as int, i as int),
            -2147483648 * (i as i64) <= acc <= 2147483648 * (i as i64),
        decreases n - i,
    {
        let e = Entity { id: i };
        let ghost acc0 = acc;
        match (world.melee_bonuses.get(e), world.equipped.get(e)) {
            (Some(b), Some(eq)) => {
                if eq.owner.id == a.id {
                    acc = acc + (b.power as i64);
                }
            }
            _ => {},
        }
        proof {
            assert(-2147483648 * (i + 1) <= acc <= 2147483648 * (i + 1)) by (nonlinear_arith)
                requires
                    -2147483648 * (i as i64) <= acc0 <= 2147483648 * (i as i64),
                    acc0 - 2147483648 <= acc <= acc0 + 2147483648,
                    0 <= i < 1000000000,
            ;
        }
        i += 1;
    }
    proof {
        assert(-2305843009213693952 <= acc <= 2305843009213693952) by (nonlinear_arith)
            requires
                -2147483648 * (n as i64) <= acc <= 2147483648 * (n as i64),
                0 <= n <= 1000000000,
        ;
    }
    acc
}

fn sum_defense_bonus(world: &World, t: Entity) -> (r: i64)
    requires
        world.wf(),
    ensures
        r == defense_bonus_upto(world, t.id as int, world.n()),
        -2305843009213693952 <= r <= 2305843009213693952,
{
    let n = world.alive.len();
    let mut acc: i64 = 0;
    let mut i: usize = 0;
    while i < n
        invariant
            world.wf(),
            n == world.n(),
            i <= n,
            acc == defense_bonus_upto(world, t.id as int, i as int),
            -2147483648 * (i as i64) <= acc <= 2147483648 * (i as i64),
        decreases n - i,
    {
        let e = Entity { id: i };
        let ghost acc0 = acc;
        match (world.defense_bonuses.get(e), world.equipped.get(e)) {
            (Some(b), Some(eq)) => {
                if eq.owner.id == t.id {
                    acc = acc + (b.defense as i64);
                }
            }
            _ => {},
        }
        proof {
            assert(-2147483648 * (i + 1) <= acc <= 2147483648 * (i + 1)) by (nonlinear_arith)
                requires
                    -2147483648 * (i as i64) <= acc0 <= 2147483648 * (i as i64),
                    acc0 - 2147483648 <= acc <= acc0 + 2147483648,
                    0 <= i < 1000000000,
            ;
        }
        i += 1;
    }
    proof {
        assert(-2305843009213693952 <= acc <= 2305843009213693952) by (nonlinear_arith)
            requires
                -2147483648 * (n as i64) <= acc <= 2147483648 * (n as i64),
                0 <= n <= 1000000000,
        ;
    }
    acc
}

fn hit_message(an: &String, tn: &String, dmg: i32) -> (r: String)
    ensures
        r@ == hit_msg(an@, tn@, dmg as int),
{
    let mut s = String::new();
    proof {
        reveal_strlit(" hits ");
        reveal_strlit(" for ");
        reveal_strlit(" hp.");
    }
    s.append(an.as_str());
    s.append(" hits ");
    s.append(tn.as_str());
    s.append(" for ");
    let d = crate::gamelog::i32_to_dec_string(dmg);
    s.append(d.as_str());
    s.append(" hp.");
    proof {
        assert(s@ =~= hit_msg(an@, tn@, dmg as int));
    }
    s
}

fn unable_message(an: &String, tn: &String) -> (r: String)
    ensures
        r@ == unable_msg(an@, tn@),
{
    let mut s = String::new();
    proof {
        reveal_strlit(" is unable to hurt ");
    }
    s.append(an.as_str());
    s.append(" is unable to hurt ");
    s.append(tn.as_str());
    proof {
        assert(s@ =~= unable_msg(an@, tn@));
    }
    s
}

/// The melee pass. For each live attacker whose defender still stands, the
/// effective damage max(0, power + offensive bonus - defense - defensive
/// bonus) is computed; zero damage logs an "unable to hurt" entry, positive
/// damage logs a hit entry and appends to the defender's accrual. All
/// intents are cleared unconditionally at the end.
pub fn run_melee(world: &mut World)
    requires
        old(world).wf(),
        melee_intents_wf(old(world)),
    ensures
        final(world).wf(),
        final(world).n() == old(world).n(),
        forall|e: int| 0 <= e < final(world).n() ==> final(world).wants_melee@[e] is None,
        forall|t: int| 0 <= t < old(world).n() ==> sd_amounts(
            #[trigger] final(world).suffer_damage@[t],
        ) == sd_amounts(old(world).suffer_damage@[t]) + melee_dmg_seq(
            old(world),
            t,
            old(world).n(),
        ),
        log_view(final(world).log.entries@) == log_view(old(world).log.entries@) + melee_msgs_upto(
            old(world),
            old(world).n(),
        ),
        final(world).positions@ == old(world).positions@,
        final(world).renderables@ == old(world).renderables@,
        final(world).players@ == old(world).players@,
        final(world).monsters@ == old(world).monsters@,
        final(world).viewsheds@ == old(world).viewsheds@,
        final(world).names@ == old(world).names@,
        final(world).blockers@ == old(world).blockers@,
        final(world).combat_stats@ == old(world).combat_stats@,
        final(world).items@ == old(world).items@,
        final(world).healing@ == old(world).healing@,
        final(world).backpacks@ == old(world).backpacks@,
        final(world).wants_pickup@ == old(world).wants_pickup@,
        final(world).wants_use@ == old(world).wants_use@,
        final(world).wants_drop@ == old(world).wants_drop@,
        final(world).consumables@ == old(world).consumables@,
        final(world).ranged@ == old(world).ranged@,
        final(world).inflicts_damage@ == old(world).inflicts_damage@,
        final(world).aoe@ == old(world).aoe@,
        final(world).confusion@ == old(world).confusion@,
        final(world).equippables@ == old(world).equippables@,
        final(world).equipped@ == old(world).equipped@,
        final(world).melee_bonuses@ == old(world).melee_bonuses@,
        final(world).defense_bonuses@ == old(world).defense_bonuses@,
        final(world).alive@ == old(world).alive@,
        final(world).pending_delete@ == old(world).pending_delete@,
        final(world).map == old(world).map,
        final(world).player == old(world).player,
        final(world).player_pos == old(world).player_pos,
{
    let n = world.alive.len();
    let mut a: usize = 0;
    while a < n
        invariant
            world.wf(),
            old(world).wf(),
            melee_intents_wf(old(world)),
            n == world.n(),
            n == old(world).n(),
            a <= n,
            forall|t: int| 0 <= t < n ==> sd_amounts(#[trigger] world.suffer_damage@[t])
                == sd_amounts(old(world).suffer_damage@[t]) + melee_dmg_seq(
                old(world),
                t,
                a as int,
            ),
            log_view(world.log.entries@) == log_view(old(world).log.entries@) + melee_msgs_upto(
                old(world),
                a as int,
            ),
            world.positions@ == old(world).positions@,
            world.renderables@ == old(world).renderables@,
            world.players@ == old(world).players@,
            world.monsters@ == old(world).monsters@,
            world.viewsheds@ == old(world).viewsheds@,
            world.names@ == old(world).names@,
            world.blockers@ == old(world).blockers@,
            world.combat_stats@ == old(world).combat_stats@,
            world.wants_melee@ == old(world).wants_melee@,
            world.items@ == old(world).items@,
            world.healing@ == old(world).healing@,
            world.backpacks@ == old(world).backpacks@,
            world.wants_pickup@ == old(world).wants_pickup@,
            world.wants_use@ == old(world).wants_use@,
            world.wants_drop@ == old(world).wants_drop@,
            world.consumables@ == old(world).consumables@,
            world.ranged@ == old(world).ranged@,
            world.inflicts_damage@ == old(world).inflicts_damage@,
            world.aoe@ == old(world).aoe@,
            world.confusion@ == old(world).confusion@,
            world.equippables@ == old(world).equippables@,
            world.equipped@ == old(world).equipped@,
            world.melee_bonuses@ == old(world).melee_bonuses@,
            world.defense_bonuses@ == old(world).defense_bonuses@,
            world.alive@ == old(world).alive@,
            world.pending_delete@ == old(world).pending_delete@,
            world.map == old(world).map,
            world.player == old(world).player,
            world.player_pos == old(world).player_pos,
        decreases n - a,
    {
        let att = Entity { id: a };
        let intent = world.wants_melee.get(att);
        let mut resolves = false;
        let mut target = Entity { id: 0 };
        match intent {
            Some(wm) => {
                target = wm.target;
                if world.names.has(att) {
                    match world.combat_stats.get(att) {
                        Some(sa) => {
                            if sa.hp > 0 {
                                proof {
                                    assert(attacker_live(old(world), a as int));
                                }
                                match world.combat_stats.get(target) {
                                    Some(st) => {
                                        if st.hp > 0 {
                                            resolves = true;
                                        }
                                    }
                                    None => {
                                        proof {
                                            assert(false);
                                        }
                                    }
                                }
                            }
                        }
                        None => {}
                    }
                }
            }
            None => {}
        }
        proof {
            assert(resolves == attack_resolves(old(world), a as int));
        }
        if resolves {
            let sa = *world.combat_stats.get(att).unwrap();
            let st = *world.combat_stats.get(target).unwrap();
            let off = sum_offense_bonus(world, att);
            let def = sum_defense_bonus(world, target);
            proof {
                lemma_offense_congruent(world, old(world), a as int, n as int);
                lemma_defense_congruent(world, old(world), target.id as int, n as int);
            }
            let raw: i64 = ((sa.power as i64) + off) - ((st.defense as i64) + def);
            let dmg64: i64 = if raw <= 0 {
                0
            } else {
                raw
            };
            let dmg: i32 = if dmg64 > (i32::MAX as i64) {
                i32::MAX
            } else {
                dmg64 as i32
            };
            proof {
                assert(dmg == melee_damage(old(world), a as int));
            }
            let an = world.names.get(att).unwrap().name.clone();
            let tn = world.names.get(target).unwrap().name.clone();
            let ghost logpre = world.log.entries@;
            if dmg == 0 {
                let msg = unable_message(&an, &tn);
                world.log.push(msg);
            } else {
                let msg = hit_message(&an, &tn, dmg);
                world.log.push(msg);
                let ghost sdpre = world.suffer_damage@;
                SufferDamage::new_damage(&mut world.suffer_damage, target, dmg);
                proof {
                    assert forall|t: int| 0 <= t < n implies sd_amounts(
                        #[trigger] world.suffer_damage@[t],
                    ) == sd_amounts(old(world).suffer_damage@[t]) + melee_dmg_seq(
                        old(world),
                        t,
                        a + 1,
                    ) by {
                        if t == target.id {
                            assert(sd_amounts(entry(world.suffer_damage@, t)) == sd_amounts(
                                entry(sdpre, t),
                            ).push(dmg));
                        } else {
                            assert(world.suffer_damage@[t] == sdpre[t]);
                        }
                    }
                }
            }
            proof {
                assert(log_view(world.log.entries@) =~= log_view(old(world).log.entries@)
                    + melee_msgs_upto(old(world), a + 1));
            }
        } else {
            proof {
                assert(melee_msgs_upto(old(world), a + 1) == melee_msgs_upto(old(world), a as int));
                assert forall|t: int| 0 <= t < n implies sd_amounts(
                    #[trigger] world.suffer_damage@[t],
                ) == sd_amounts(old(world).suffer_damage@[t]) + melee_dmg_seq(
                    old(world),
                    t,
                    a + 1,
                ) by {
                    assert(melee_dmg_seq(old(world), t, a + 1) == melee_dmg_seq(
                        old(world),
                        t,
                        a as int,
                    ));
                }
            }
        }
        a += 1;
    }
    world.wants_melee.clear_all();
}

/// The bonus sums read only the bonus and equipped storages, equal in both
/// worlds.
proof fn lemma_offense_congruent(a: &World, b: &World, owner: int, n: int)
    requires
        a.melee_bonuses@ == b.melee_bonuses@,
        a.equipped@ == b.equipped@,
    ensures
        offense_bonus_upto(a, owner, n) == offense_bonus_upto(b, owner, n),
    decreases n,
{
    if n > 0 {
        lemma_offense_congruent(a, b, owner, n - 1);
    }
}

proof fn lemma_defense_congruent(a: &World, b: &World, owner: int, n: int)
    requires
        a.defense_bonuses@ == b.defense_bonuses@,
        a.equipped@ == b.equipped@,
    ensures
        defense_bonus_upto(a, owner, n) == defense_bonus_upto(b, owner, n),
    decreases n,
{
    if n > 0 {
        lemma_defense_congruent(a, b, owner, n - 1);
    }
}

} // verus!
