//! A turn-based dungeon-crawl simulation: a procedurally generated grid map
//! populated with a player and monster entities, driven by a fixed pipeline
//! of simulation passes (visibility, AI, spatial indexing, combat, damage
//! resolution, inventory effects) that run once per player action.

pub mod components;
pub mod damage_system;
pub mod fov;
pub mod gamelog;
pub mod geom;
pub mod inventory_system;
pub mod map;
pub mod map_indexing_system;
pub mod mapgen;
pub mod melee_combat_system;
pub mod monster_ai_system;
pub mod pathfind;
pub mod player;
pub mod random_table;
pub mod rng;
pub mod snapshot;
pub mod spawner;
pub mod store;
pub mod turn;
pub mod visibility_system;
pub mod world;

pub use components::{
    AreaOfEffect, BlocksTile, Color, CombatStats, Confusion, Consumable, DefenseBonus,
    EquipmentSlot, Equippable, Equipped, InBackpack, InflictsDamage, Item, MeleePowerBonus,
    Monster, Name, Player, Position, ProvidesHealing, Ranged, Renderable, SufferDamage, Viewshed,
    WantsToDropItem, WantsToMelee, WantsToPickupItem, WantsToUseItem,
};
pub use gamelog::GameLog;
pub use geom::{Point, Rect};
pub use map::{GameMap, TileType, MAPCOUNT, MAPHEIGHT, MAPWIDTH};
pub use random_table::{RandomEntry, RandomTable};
pub use rng::GameRng;
pub use snapshot::Snapshot;
pub use store::{Entity, Storage};
pub use turn::{ItemMenuResult, MainMenuSelection, RunState, State, TickEvent};
pub use world::World;
