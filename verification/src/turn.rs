//! The turn controller: the run-state machine that sequences the fixed
//! system pipeline once per player action and exposes the run/render
//! boundary to the input and drawing code outside the library.

use vstd::prelude::*;
use crate::components::{sd_amounts, CombatStats, WantsToUseItem};
use crate::gamelog::log_view;
use crate::geom::Point;
use crate::inventory_system::{
    drop_intents_wf, drop_msgs, occupants_ok, pickup_intents_wf, pickup_msgs,
    run_item_collection, run_item_drop, run_item_use, use_dmg_upto, use_msgs, use_stats,
};
use crate::melee_combat_system::{melee_dmg_seq, melee_intents_wf, melee_msgs_upto, run_melee};
use crate::map_indexing_system::run_map_indexing;
use crate::monster_ai_system::{ai_msgs_upto, run_monster_ai};
use crate::damage_system::{clamp_i32, delete_the_dead, run_damage, sum_amounts};
use crate::store::{Entity, entry};
use crate::visibility_system::run_visibility;
use crate::world::World;

verus! {

#[derive(Clone, Copy, PartialEq, Eq, Structural, Debug)]
pub enum MainMenuSelection {
    NewGame,
    LoadGame,
    Quit,
}

#[derive(Clone, Copy, PartialEq, Eq, Structural, Debug)]
pub enum RunState {
    AwaitingInput,
    PreRun,
    PlayerTurn,
    MonsterTurn,
    ShowInventory,
    ShowDropItem,
    ShowTargeting { range: i32, item: Entity },
    MainMenu { menu_selection: MainMenuSelection },
    SaveGame,
}

#[derive(Clone, Copy, PartialEq, Eq, Structural, Debug)]
pub enum ItemMenuResult {
    Cancel,
    NoResponse,
    Selected,
}

/// What the input and menu layer outside the library reports for one frame.
#[derive(Clone, Copy, Debug)]
pub enum TickEvent {
    Nothing,
    /// The input layer handled a frame of AwaitingInput; `turn_taken` says
    /// whether the player acted (moving or bumping via try_move_player, or
    /// attaching an intent).
    InputDone { turn_taken: bool },
    /// A menu frame of ShowInventory or ShowDropItem.
    Menu { result: ItemMenuResult, item: Option<Entity> },
    /// A targeting frame of ShowTargeting.
    Target { result: ItemMenuResult, point: Option<Point> },
    /// A main-menu frame: the highlighted entry, and whether it was chosen.
    MainMenu { selected: MainMenuSelection, confirmed: bool },
}

/// What the pipeline demands of the intent components before a tick: the
/// unwraps inside the passes are total, droppers are not simultaneously
/// being picked up, and equippable items are used on self.
pub open spec fn intents_wf(w: &World) -> bool {
    &&& melee_intents_wf(w)
    &&& pickup_intents_wf(w)
    &&& drop_intents_wf(w)
    &&& forall|e: int|
        0 <= e < w.n() ==> match #[trigger] w.wants_use@[e] {
            Some(ui) => {
                &&& (ui.target matches Some(pt) ==> w.map.in_map(pt.x as int, pt.y as int))
                &&& (entry(w.equippables@, ui.item.id as int) is Some ==> ui.target is None
                    && ui.item.id < w.n() && w.player.id < w.n())
            },
            None => true,
        }
    &&& forall|e: int, k: int|
        0 <= e < w.n() && 0 <= k < w.n() && (#[trigger] w.wants_drop@[e]) is Some ==> match #[
        trigger] w.wants_pickup@[k] {
            Some(pk) => pk.item.id != e,
            None => true,
        }
}

/// The stats an entity carries out of the combat phase: the melee fold
/// extends its accrual, and the damage fold then subtracts the summed
/// accrual from its hit points, clamped into the representable range.
/// `wm` is the world as the melee pass receives it.
pub open spec fn combat_stats_after(wm: &World, e: int) -> Option<CombatStats> {
    match wm.combat_stats@[e] {
        Some(s) => Some(
            CombatStats {
                max_hp: s.max_hp,
                hp: clamp_i32(
                    s.hp - sum_amounts(
                        sd_amounts(wm.suffer_damage@[e]) + melee_dmg_seq(wm, e, wm.n()),
                    ),
                ) as i32,
                defense: s.defense,
                power: s.power,
            },
        ),
        None => None,
    }
}

/// One tick of the pipeline, composed pass by pass. `wv` is the world as
/// the monster AI receives it (visibility and indexing refresh viewsheds
/// and the map index and touch nothing the later passes read), `wm` as
/// the melee pass receives it, `wp` as the pickup pass receives it, `wu`
/// as the item-use pass receives it and `wr` as the drop pass receives
/// it. The stats leaving the combat phase are the damage fold over the
/// melee fold's accruals; the use fold then yields the stats and fresh
/// accruals every survivor carries out; and the log grows by exactly each
/// pass's messages, in pass order, closed by the death sweep's epitaph.
pub open spec fn pipeline_trace(
    w0: &World,
    wv: World,
    wm: World,
    wp: World,
    wu: World,
    wr: World,
    w1: &World,
) -> bool {
    &&& wv.n() == w0.n()
    &&& wm.n() == w0.n()
    &&& wp.n() == w0.n()
    &&& wu.n() == w0.n()
    &&& wr.n() == w0.n()
    &&& w1.n() == w0.n()
    // visibility and indexing leave the acting components and the log alone
    &&& wv.combat_stats@ == w0.combat_stats@
    &&& wv.suffer_damage@ == w0.suffer_damage@
    &&& wv.wants_melee@ == w0.wants_melee@
    &&& wv.wants_use@ == w0.wants_use@
    &&& wv.log == w0.log
    // the AI taunts and files melee intents; it touches no stat or accrual
    &&& wm.combat_stats@ == wv.combat_stats@
    &&& wm.suffer_damage@ == wv.suffer_damage@
    &&& wm.wants_use@ == wv.wants_use@
    &&& log_view(wm.log.entries@) == log_view(wv.log.entries@) + ai_msgs_upto(&wv, wv.n())
    // melee then damage: the composed stats, the consumed accruals and the
    // melee pass's log entries
    &&& forall|e: int|
        0 <= e < w0.n() ==> #[trigger] wp.combat_stats@[e] == combat_stats_after(&wm, e)
    &&& forall|t: int|
        0 <= t < w0.n() ==> (if wm.combat_stats@[t] is Some {
            (#[trigger] wp.suffer_damage@[t]) is None
        } else {
            sd_amounts(wp.suffer_damage@[t]) == sd_amounts(wm.suffer_damage@[t])
                + melee_dmg_seq(&wm, t, wm.n())
        })
    &&& log_view(wp.log.entries@) == log_view(wm.log.entries@) + melee_msgs_upto(&wm, wm.n())
    // pickup moves items into backpacks and logs each; stats, accruals and
    // the use intents ride through
    &&& wu.combat_stats@ == wp.combat_stats@
    &&& wu.suffer_damage@ == wp.suffer_damage@
    &&& wu.wants_use@ == wp.wants_use@
    &&& log_view(wu.log.entries@) == log_view(wp.log.entries@) + pickup_msgs(&wp, wp.n())
    // the use fold: healing and infliction rewrite the stats, fresh
    // accruals accrue for next tick, and each intent logs its messages
    &&& wr.combat_stats@ == use_stats(&wu, wu.n())
    &&& forall|t: int|
        0 <= t < w0.n() ==> sd_amounts(#[trigger] wr.suffer_damage@[t]) == sd_amounts(
            wu.suffer_damage@[t],
        ) + use_dmg_upto(&wu, t, wu.n())
    &&& log_view(wr.log.entries@) == log_view(wu.log.entries@) + use_msgs(&wu, wu.n())
    // drop, the commit point and the death sweep: the drop pass logs its
    // fold, the sweep may close the log, and every entity that still
    // carries stats or an accrual carries the use fold's values out
    &&& forall|e: int|
        0 <= e < w0.n() && (#[trigger] entry(w1.combat_stats@, e)) is Some ==> entry(
            w1.combat_stats@,
            e,
        ) == entry(wr.combat_stats@, e)
    &&& forall|e: int|
        0 <= e < w0.n() && (#[trigger] entry(w1.suffer_damage@, e)) is Some ==> entry(
            w1.suffer_damage@,
            e,
        ) == entry(wr.suffer_damage@, e)
    &&& (log_view(w1.log.entries@) == log_view(wr.log.entries@) + drop_msgs(&wr, wr.n())
        || log_view(w1.log.entries@) == (log_view(wr.log.entries@) + drop_msgs(&wr, wr.n())).push(
        "You are dead"@,
    ))
}

/// The melee and damage folds compose: running the damage pass on the
/// melee pass's output subtracts, from each stats-carrying entity, the
/// sum of its prior accrual extended by the melee fold.
proof fn lemma_combat_compose(wm: &World, wmid: &World, wp: &World)
    requires
        wm.wf(),
        wmid.n() == wm.n(),
        wp.n() == wm.n(),
        wmid.combat_stats@ == wm.combat_stats@,
        forall|t: int|
            0 <= t < wm.n() ==> sd_amounts(#[trigger] wmid.suffer_damage@[t]) == sd_amounts(
                wm.suffer_damage@[t],
            ) + melee_dmg_seq(wm, t, wm.n()),
        forall|e: int|
            0 <= e < wmid.n() ==> #[trigger] wp.combat_stats@[e] == (match (
                wmid.combat_stats@[e],
                wmid.suffer_damage@[e],
            ) {
                (Some(s), Some(sd)) => Some(
                    CombatStats {
                        max_hp: s.max_hp,
                        hp: clamp_i32(s.hp - sum_amounts(sd.amount@)) as i32,
                        defense: s.defense,
                        power: s.power,
                    },
                ),
                _ => wmid.combat_stats@[e],
            }),
    ensures
        forall|e: int|
            0 <= e < wm.n() ==> #[trigger] wp.combat_stats@[e] == combat_stats_after(wm, e),
{
    assert forall|e: int| 0 <= e < wm.n() implies #[trigger] wp.combat_stats@[e]
        == combat_stats_after(wm, e) by {
        match wm.combat_stats@[e] {
            Some(s) => {
                match wmid.suffer_damage@[e] {
                    Some(sd) => {
                        assert(sd.amount@ == sd_amounts(wm.suffer_damage@[e]) + melee_dmg_seq(
                            wm,
                            e,
                            wm.n(),
                        ));
                    }
                    None => {
                        assert(sd_amounts(wm.suffer_damage@[e]) + melee_dmg_seq(wm, e, wm.n())
                            =~= Seq::<i32>::empty());
                        assert(sum_amounts(
                            sd_amounts(wm.suffer_damage@[e]) + melee_dmg_seq(wm, e, wm.n()),
                        ) == 0);
                        assert(clamp_i32(s.hp - 0) == s.hp);
                    }
                }
            }
            None => {}
        }
    }
}

/// The game, as the presentation layer holds it: the world and the current
/// run state.
pub struct State {
    pub world: World,
    pub run_state: RunState,
}

impl State {
    /// One full tick of the pipeline: visibility, map indexing, monster AI,
    /// melee, damage, inventory (pickup, use, drop), the structural commit
    /// point, and the death sweep. The indexing pass runs before the AI and
    /// before every pass that reads tile occupancy, so the monsters path
    /// over this tick's blocking flags. Every intent collection is cleared,
    /// and every surviving entity other than the player ends within its hit
    /// point bounds.
    pub fn run_systems(&mut self)
        requires
            old(self).world.wf(),
            old(self).world.map.in_map(
                old(self).world.player_pos.x as int,
                old(self).world.player_pos.y as int,
            ),
            intents_wf(&old(self).world),
        ensures
            final(self).world.wf(),
            final(self).run_state == old(self).run_state,
            forall|e: int| 0 <= e < final(self).world.n() ==> {
                &&& final(self).world.wants_melee@[e] is None
                &&& final(self).world.wants_pickup@[e] is None
                &&& final(self).world.wants_use@[e] is None
                &&& final(self).world.wants_drop@[e] is None
            },
            forall|k: int| 0 <= k < final(self).world.n()
                ==> final(self).world.pending_delete@[k] == false,
            forall|k: int| (0 <= k < final(self).world.n() && k != final(self).world.player.id
                && (#[trigger] entry(final(self).world.combat_stats@, k)) matches Some(s))
                ==> (entry(final(self).world.combat_stats@, k) matches Some(s) && 1 <= s.hp
                <= s.max_hp),
            final(self).world.player == old(self).world.player,
            // the designated player survives the commit and the death
            // sweep: only a used consumable is ever marked, and the sweep
            // spares the player by identity
            (old(self).world.player.id < old(self).world.n()
                && !old(self).world.pending_delete@[old(self).world.player.id as int] && entry(
                old(self).world.consumables@,
                old(self).world.player.id as int,
            ) is None && old(self).world.alive@[old(self).world.player.id as int])
                ==> final(self).world.alive@[old(self).world.player.id as int],
            // the passes compose: some intermediate worlds witness that the
            // final stats, accruals and log are the melee, damage and
            // inventory folds applied in pass order
            exists|wv: World, wm: World, wp: World, wu: World, wr: World|
                pipeline_trace(&old(self).world, wv, wm, wp, wu, wr, &final(self).world),
    {
        let w = &mut self.world;
        let ghost w_old = old(self).world;
        run_visibility(w);
        let ghost pre_index = *w;
        run_map_indexing(w);
        let ghost post_index = *w;
        proof {
            crate::map_indexing_system::lemma_indexed_occupants_ok(&pre_index, w);
        }
        let ghost w_vis = *w;
        run_monster_ai(w);
        proof {
            assert forall|e: int| 0 <= e < w_old.n() && w_old.positions@[e] is Some implies
                #[trigger] w.positions@[e] is Some by {
                if !crate::monster_ai_system::monster_acts(&w_vis, e) {
                    assert(w.positions@[e] == w_vis.positions@[e]);
                } else if crate::monster_ai_system::adjacent_to_player(&w_vis, e) {
                    assert(w.positions@[e] == w_vis.positions@[e]);
                } else {
                    assert(w.monsters@[e] == Some(
                        crate::components::Monster {
                            memory: crate::monster_ai_system::new_memory(&w_vis, e),
                        },
                    ));
                    assert(crate::monster_ai_system::monster_move_spec(&w_vis, w, e));
                    match crate::monster_ai_system::new_memory(&w_vis, e) {
                        None => {
                            assert(w.positions@[e] == w_vis.positions@[e]);
                        }
                        Some(t) => {
                            let p0 = w_vis.positions@[e]->Some_0;
                            let start = crate::geom::Point { x: p0.x, y: p0.y };
                            if exists|kk: nat| crate::pathfind::reach(
                                &w_vis.map,
                                start,
                                t.x as int,
                                t.y as int,
                                kk,
                            ) {
                                let kk = choose|kk: nat|
                                    crate::pathfind::reach(
                                        &w_vis.map,
                                        start,
                                        t.x as int,
                                        t.y as int,
                                        kk,
                                    );
                                crate::pathfind::lemma_min_steps_exists(
                                    &w_vis.map,
                                    start,
                                    t,
                                    kk,
                                );
                                let nn = choose|nn: nat|
                                    nn <= kk && #[trigger] crate::pathfind::min_steps_is(
                                        &w_vis.map,
                                        start,
                                        t,
                                        nn,
                                    );
                                if nn == 0 {
                                    assert(w.positions@[e] == w_vis.positions@[e]);
                                } else {
                                    assert(w.positions@[e] matches Some(q));
                                }
                            } else {
                                assert(w.positions@[e] == w_vis.positions@[e]);
                            }
                        }
                    }
                }
            }
        }
        proof {
            lemma_occupants_ok_stable(&post_index, w);
            lemma_melee_wf_stable(&w_old, w);
        }
        let ghost pre_melee = *w;
        run_melee(w);
        let ghost post_melee = *w;
        run_damage(w);
        proof {
            lemma_occupants_ok_stable(&post_index, w);
            lemma_pickup_wf_stable(&w_old, w);
        }
        let ghost pre_pickup = *w;
        run_item_collection(w);
        proof {
            lemma_occupants_ok_stable(&post_index, w);
            lemma_use_intents_ok(&w_old, w);
        }
        let ghost pre_use = *w;
        run_item_use(w);
        proof {
            lemma_drop_intents_ok(&w_old, &pre_pickup, w);
            let pid = w_old.player.id as int;
            if pid < w_old.n() && entry(w_old.consumables@, pid) is None {
                crate::inventory_system::lemma_use_pending_unmarked(
                    &pre_use,
                    pre_use.n() as int,
                    pid,
                );
            }
        }
        let ghost pre_drop = *w;
        run_item_drop(w);
        let ghost pre_maintain = *w;
        w.maintain();
        let ghost pre_delete = *w;
        delete_the_dead(w);
        proof {
            assert forall|e: int| 0 <= e < w.n() implies {
                &&& w.wants_melee@[e] is None
                &&& w.wants_pickup@[e] is None
                &&& w.wants_use@[e] is None
                &&& w.wants_drop@[e] is None
            } by {
                assert(pre_maintain.wants_melee@[e] is None);
                assert(pre_maintain.wants_pickup@[e] is None);
                assert(pre_maintain.wants_use@[e] is None);
                assert(pre_maintain.wants_drop@[e] is None);
                if pre_maintain.pending_delete@[e] {
                    assert(World::no_components_at(&pre_delete, e));
                } else {
                    assert(World::same_components_at(&pre_maintain, &pre_delete, e));
                }
                if e != pre_delete.player.id && crate::damage_system::dead_entity(
                    &pre_delete,
                    e,
                ) {
                    assert(World::no_components_at(w, e));
                } else {
                    assert(World::same_components_at(&pre_delete, w, e));
                }
            }
            assert forall|k: int| 0 <= k < w.n() implies w.pending_delete@[k] == false by {
                assert(pre_delete.pending_delete@[k] == false);
            }
        }
        proof {
            lemma_combat_compose(&pre_melee, &post_melee, &pre_pickup);
            assert forall|e: int| 0 <= e < w.n() && (#[trigger] entry(
                w.combat_stats@,
                e,
            )) is Some implies entry(w.combat_stats@, e) == entry(
                pre_drop.combat_stats@,
                e,
            ) by {
                if pre_maintain.pending_delete@[e] {
                    assert(World::no_components_at(&pre_delete, e));
                    if e != pre_delete.player.id && crate::damage_system::dead_entity(
                        &pre_delete,
                        e,
                    ) {
                        assert(World::no_components_at(w, e));
                    } else {
                        assert(World::same_components_at(&pre_delete, w, e));
                    }
                } else {
                    assert(World::same_components_at(&pre_maintain, &pre_delete, e));
                    if e != pre_delete.player.id && crate::damage_system::dead_entity(
                        &pre_delete,
                        e,
                    ) {
                        assert(World::no_components_at(w, e));
                    } else {
                        assert(World::same_components_at(&pre_delete, w, e));
                    }
                }
            }
            assert forall|e: int| 0 <= e < w.n() && (#[trigger] entry(
                w.suffer_damage@,
                e,
            )) is Some implies entry(w.suffer_damage@, e) == entry(
                pre_drop.suffer_damage@,
                e,
            ) by {
                if pre_maintain.pending_delete@[e] {
                    assert(World::no_components_at(&pre_delete, e));
                    if e != pre_delete.player.id && crate::damage_system::dead_entity(
                        &pre_delete,
                        e,
                    ) {
                        assert(World::no_components_at(w, e));
                    } else {
                        assert(World::same_components_at(&pre_delete, w, e));
                    }
                } else {
                    assert(World::same_components_at(&pre_maintain, &pre_delete, e));
                    if e != pre_delete.player.id && crate::damage_system::dead_entity(
                        &pre_delete,
                        e,
                    ) {
                        assert(World::no_components_at(w, e));
                    } else {
                        assert(World::same_components_at(&pre_delete, w, e));
                    }
                }
            }
            assert(pipeline_trace(&w_old, post_index, pre_melee, pre_pickup, pre_use, pre_drop, w));
        }
    }

    /// One step of the run-state machine, exactly as the game loop drives
    /// it. Returns whether the player chose to quit from the main menu.
    pub fn tick(&mut self, ev: TickEvent) -> (quit: bool)
        requires
            old(self).world.wf(),
            old(self).world.map.in_map(
                old(self).world.player_pos.x as int,
                old(self).world.player_pos.y as int,
            ),
            intents_wf(&old(self).world),
        ensures
            final(self).world.wf(),
            ({
                let rs = old(self).run_state;
                let rs2 = final(self).run_state;
                match rs {
                    RunState::PreRun => rs2 == RunState::AwaitingInput,
                    RunState::AwaitingInput => (match ev {
                        TickEvent::InputDone { turn_taken } => rs2 == (if turn_taken {
                            RunState::PlayerTurn
                        } else {
                            RunState::AwaitingInput
                        }),
                        _ => rs2 == RunState::AwaitingInput,
                    }),
                    RunState::PlayerTurn => rs2 == RunState::MonsterTurn,
                    RunState::MonsterTurn => rs2 == RunState::AwaitingInput,
                    RunState::SaveGame => rs2 == (RunState::MainMenu {
                        menu_selection: MainMenuSelection::LoadGame,
                    }),
                    _ => true,
                }
            }),
            !(old(self).run_state matches RunState::MainMenu { .. }) ==> quit == false,
            // the arms that drive the pipeline run the full pass
            // composition on the world they received
            (old(self).run_state matches RunState::PreRun || old(
                self,
            ).run_state matches RunState::PlayerTurn || old(
                self,
            ).run_state matches RunState::MonsterTurn) ==> exists|
                wv: World,
                wm: World,
                wp: World,
                wu: World,
                wr: World,
            |
                pipeline_trace(&old(self).world, wv, wm, wp, wu, wr, &final(self).world),
            // the item menus attach exactly the documented intent
            ({
                let w1 = old(self).world;
                match (old(self).run_state, ev) {
                    (
                        RunState::ShowInventory,
                        TickEvent::Menu { result: ItemMenuResult::Selected, item: Some(it) },
                    ) => (match entry(w1.ranged@, it.id as int) {
                        Some(rg) => final(self).run_state == (RunState::ShowTargeting {
                            range: rg.range,
                            item: it,
                        }) && final(self).world == w1,
                        None => (w1.player.id < w1.n() ==> final(self).world.wants_use@
                            == w1.wants_use@.update(
                            w1.player.id as int,
                            Some(WantsToUseItem { item: it, target: None }),
                        )) && final(self).run_state == RunState::PlayerTurn,
                    }),
                    (
                        RunState::ShowDropItem,
                        TickEvent::Menu { result: ItemMenuResult::Selected, item: Some(it) },
                    ) => (w1.player.id < w1.n() ==> final(self).world.wants_drop@
                        == w1.wants_drop@.update(
                        w1.player.id as int,
                        Some(crate::components::WantsToDropItem { item: it }),
                    )) && final(self).run_state == RunState::PlayerTurn,
                    (
                        RunState::ShowTargeting { range: _, item: it },
                        TickEvent::Target { result: ItemMenuResult::Selected, point },
                    ) => (w1.player.id < w1.n() ==> final(self).world.wants_use@
                        == w1.wants_use@.update(
                        w1.player.id as int,
                        Some(WantsToUseItem { item: it, target: point }),
                    )) && final(self).run_state == RunState::PlayerTurn,
                    _ => true,
                }
            }),
    {
        let mut quit = false;
        let ghost mut tw: (World, World, World, World, World) = (
            old(self).world,
            old(self).world,
            old(self).world,
            old(self).world,
            old(self).world,
        );
        match self.run_state {
            RunState::PreRun => {
                self.run_systems();
                proof {
                    tw = choose|
                        wv: World,
                        wm: World,
                        wp: World,
                        wu: World,
                        wr: World,
                    |
                        pipeline_trace(&old(self).world, wv, wm, wp, wu, wr, &self.world);
                    assert(pipeline_trace(
                        &old(self).world,
                        tw.0,
                        tw.1,
                        tw.2,
                        tw.3,
                        tw.4,
                        &self.world,
                    ));
                }
                self.run_state = RunState::AwaitingInput;
            }
            RunState::AwaitingInput => {
                match ev {
                    TickEvent::InputDone { turn_taken } => {
                        if turn_taken {
                            self.run_state = RunState::PlayerTurn;
                        } else {
                            self.run_state = RunState::AwaitingInput;
                        }
                    }
                    _ => {
                        self.run_state = RunState::AwaitingInput;
                    }
                }
            }
            RunState::PlayerTurn => {
                self.run_systems();
                proof {
                    tw = choose|
                        wv: World,
                        wm: World,
                        wp: World,
                        wu: World,
                        wr: World,
                    |
                        pipeline_trace(&old(self).world, wv, wm, wp, wu, wr, &self.world);
                    assert(pipeline_trace(
                        &old(self).world,
                        tw.0,
                        tw.1,
                        tw.2,
                        tw.3,
                        tw.4,
                        &self.world,
                    ));
                }
                self.run_state = RunState::MonsterTurn;
            }
            RunState::MonsterTurn => {
                self.run_systems();
                proof {
                    tw = choose|
                        wv: World,
                        wm: World,
                        wp: World,
                        wu: World,
                        wr: World,
                    |
                        pipeline_trace(&old(self).world, wv, wm, wp, wu, wr, &self.world);
                    assert(pipeline_trace(
                        &old(self).world,
                        tw.0,
                        tw.1,
                        tw.2,
                        tw.3,
                        tw.4,
                        &self.world,
                    ));
                }
                self.run_state = RunState::AwaitingInput;
            }
            RunState::ShowInventory => {
                match ev {
                    TickEvent::Menu { result, item } => {
                        match result {
                            ItemMenuResult::Cancel => {
                                self.run_state = RunState::AwaitingInput;
                            }
                            ItemMenuResult::NoResponse => {}
                            ItemMenuResult::Selected => {
                                match item {
                                    Some(item_entity) => {
                                        let is_ranged = self.world.ranged.get(item_entity);
                                        match is_ranged {
                                            Some(r) => {
                                                let range = r.range;
                                                self.run_state = RunState::ShowTargeting {
                                                    range,
                                                    item: item_entity,
                                                };
                                            }
                                            None => {
                                                let player = self.world.player;
                                                self.world.wants_use.insert(
                                                    player,
                                                    WantsToUseItem {
                                                        item: item_entity,
                                                        target: None,
                                                    },
                                                );
                                                self.run_state = RunState::PlayerTurn;
                                            }
                                        }
                                    }
                                    None => {}
                                }
                            }
                        }
                    }
                    _ => {}
                }
            }
            RunState::ShowDropItem => {
                match ev {
                    TickEvent::Menu { result, item } => {
                        match result {
                            ItemMenuResult::Cancel => {
                                self.run_state = RunState::AwaitingInput;
                            }
                            ItemMenuResult::NoResponse => {}
                            ItemMenuResult::Selected => {
                                match item {
                                    Some(item_entity) => {
                                        let player = self.world.player;
                                        self.world.wants_drop.insert(
                                            player,
                                            crate::components::WantsToDropItem {
                                                item: item_entity,
                                            },
                                        );
                                        self.run_state = RunState::PlayerTurn;
                                    }
                                    None => {}
                                }
                            }
                        }
                    }
                    _ => {}
                }
            }
            RunState::ShowTargeting { range: _, item } => {
                match ev {
                    TickEvent::Target { result, point } => {
                        match result {
                            ItemMenuResult::Cancel => {
                                self.run_state = RunState::AwaitingInput;
                            }
                            ItemMenuResult::NoResponse => {}
                            ItemMenuResult::Selected => {
                                let player = self.world.player;
                                self.world.wants_use.insert(
                                    player,
                                    WantsToUseItem { item, target: point },
                                );
                                self.run_state = RunState::PlayerTurn;
                            }
                        }
                    }
                    _ => {}
                }
            }
            RunState::MainMenu { menu_selection: _ } => {
                match ev {
                    TickEvent::MainMenu { selected, confirmed } => {
                        if !confirmed {
                            self.run_state = RunState::MainMenu { menu_selection: selected };
                        } else {
                            match selected {
                                MainMenuSelection::NewGame => {
                                    self.run_state = RunState::PreRun;
                                }
                                MainMenuSelection::LoadGame => {
                                    self.run_state = RunState::AwaitingInput;
                                }
                                MainMenuSelection::Quit => {
                                    quit = true;
                                }
                            }
                        }
                    }
                    _ => {}
                }
            }
            RunState::SaveGame => {
                // the presentation layer persists a snapshot before this
                // transition; the controller only moves to the menu
                self.run_state = RunState::MainMenu {
                    menu_selection: MainMenuSelection::LoadGame,
                };
            }
        }
        proof {
            if (old(self).run_state matches RunState::PreRun) || (old(
                self,
            ).run_state matches RunState::PlayerTurn) || (old(
                self,
            ).run_state matches RunState::MonsterTurn) {
                assert(pipeline_trace(
                    &old(self).world,
                    tw.0,
                    tw.1,
                    tw.2,
                    tw.3,
                    tw.4,
                    &self.world,
                ));
            }
        }
        quit
    }
}

/// The melee pass's unwrap totality carries from the start of the tick to
/// the pass: the storages it reads are untouched before it.
proof fn lemma_melee_wf_stable(w0: &World, w1: &World)
    requires
        intents_wf(w0),
        w1.wants_melee@ == w0.wants_melee@,
        w1.names@ == w0.names@,
        w1.combat_stats@ == w0.combat_stats@,
        w1.n() == w0.n(),
    ensures
        melee_intents_wf(w1),
{
    assert forall|a: int|
        0 <= a < w1.n() && #[trigger] crate::melee_combat_system::attacker_live(
            w1,
            a,
        ) implies {
        &&& entry(w1.combat_stats@, crate::melee_combat_system::melee_target(w1, a)) is Some
        &&& (crate::melee_combat_system::attack_resolves(w1, a) ==> entry(
            w1.names@,
            crate::melee_combat_system::melee_target(w1, a),
        ) is Some)
    } by {
        assert(crate::melee_combat_system::attacker_live(w0, a));
        assert(crate::melee_combat_system::melee_target(w0, a)
            == crate::melee_combat_system::melee_target(w1, a));
    }
}

/// Likewise for the pickup pass.
proof fn lemma_pickup_wf_stable(w0: &World, w1: &World)
    requires
        intents_wf(w0),
        w1.wants_pickup@ == w0.wants_pickup@,
        w1.names@ == w0.names@,
        w1.player == w0.player,
        w1.n() == w0.n(),
    ensures
        pickup_intents_wf(w1),
{
}

/// Occupant consistency reads only the occupant lists, untouched between
/// the indexing pass and the use pass.
proof fn lemma_occupants_ok_stable(w0: &World, w1: &World)
    requires
        occupants_ok(w0),
        w1.map.tile_content@ == w0.map.tile_content@,
    ensures
        occupants_ok(w1),
{
}

/// After the earlier passes the use pass's preconditions hold: target
/// points still lie on the map and equip uses still carry no target point,
/// so the equip branch always finds the player as its target.
proof fn lemma_use_intents_ok(w0: &World, w1: &World)
    requires
        intents_wf(w0),
        w1.wants_use@ == w0.wants_use@,
        w1.equippables@ == w0.equippables@,
        w1.player == w0.player,
        w1.n() == w0.n(),
        w1.map.width == w0.map.width,
        w1.map.height == w0.map.height,
    ensures
        crate::inventory_system::use_intents_wf(w1),
{
    assert forall|e: int| 0 <= e < w1.n() implies match #[trigger] w1.wants_use@[e] {
        Some(ui) => {
            &&& (ui.target matches Some(pt) ==> w1.map.in_map(pt.x as int, pt.y as int))
            &&& (entry(w1.equippables@, ui.item.id as int) is Some ==> ui.target is None
                && ui.item.id < w1.n() && w1.player.id < w1.n())
        },
        None => true,
    } by {
        assert(w0.wants_use@[e] == w1.wants_use@[e]);
    }
}

/// The drop pass's preconditions hold after the pickup pass: no dropper was
/// picked up as an item, so every dropper still has its position.
proof fn lemma_drop_intents_ok(w_old: &World, w0: &World, w1: &World)
    requires
        intents_wf(w_old),
        w0.wants_drop@ == w_old.wants_drop@,
        w0.wants_pickup@ == w_old.wants_pickup@,
        w0.n() == w_old.n(),
        forall|e: int| 0 <= e < w_old.n() && w_old.positions@[e] is Some
            ==> #[trigger] w0.positions@[e] is Some,
        w1.wants_drop@ == w_old.wants_drop@,
        w1.names@ == w_old.names@,
        w1.player == w_old.player,
        w1.n() == w_old.n(),
        w0.positions@.len() == w0.n(),
        w_old.positions@.len() == w_old.n(),
        w1.positions@ == crate::inventory_system::pickup_positions(w0, w0.n()),
    ensures
        drop_intents_wf(w1),
{
    assert forall|e: int| 0 <= e < w1.n() implies match #[trigger] w1.wants_drop@[e] {
        Some(d) => w1.positions@[e] is Some && (e == w1.player.id ==> entry(
            w1.names@,
            d.item.id as int,
        ) is Some),
        None => true,
    } by {
        match w1.wants_drop@[e] {
            Some(d) => {
                assert(w_old.wants_drop@[e] is Some);
                assert(w_old.positions@[e] is Some);
                assert(w0.positions@[e] is Some);
                lemma_pickup_positions_keeps(w0, w_old, w0.n() as int, e);
            }
            None => {}
        }
    }
}

/// The pickup fold only detaches positions of items that appear in pickup
/// intents; a slot that is no such item keeps its value.
proof fn lemma_pickup_positions_keeps(w: &World, w_old: &World, k: int, e: int)
    requires
        intents_wf(w_old),
        w.wants_pickup@ == w_old.wants_pickup@,
        w.wants_drop@ == w_old.wants_drop@,
        w.n() == w_old.n(),
        0 <= e < w.n(),
        w.wants_drop@[e] is Some,
        w.positions@.len() == w.n(),
        0 <= k <= w.n(),
    ensures
        crate::inventory_system::pickup_positions(w, k).len() == w.positions@.len(),
        crate::inventory_system::pickup_positions(w, k)[e] == w.positions@[e],
    decreases k,
{
    if k > 0 {
        lemma_pickup_positions_keeps(w, w_old, k - 1, e);
        match w.wants_pickup@[k - 1] {
            Some(pk) => {
                assert(w_old.wants_pickup@[k - 1] is Some);
                assert(w_old.wants_drop@[e] is Some);
                assert(pk.item.id != e);
            }
            None => {}
        }
    }
}

} // verus!
