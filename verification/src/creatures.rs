//! Static creatures materialized from spawn records: identities, metadata and runtime state.

use vstd::prelude::*;
use crate::geometry::{CardinalDirection, Position, abs_diff_u16, diff};

verus! {

pub const MAX_TFS_STATIC_SPAWNS: usize = 65_536;
/// Legacy loot-chance scale: a declared chance of this value always drops.
pub const LOOT_CHANCE_SCALE: u32 = 100_000;
/// Bounded number of declarative loot entries retained per static monster.
pub const MAX_STATIC_LOOT_ENTRIES: usize = 32;
pub const MAX_STATIC_CREATURE_TARGET_RANGE: u8 = 8;

/// A display-only entity materialized from a spawn record.
#[derive(Debug, Clone, PartialEq, Eq)]
pub struct FeTfsStaticEntity {
    pub id: u32,
    pub name: String,
    pub name_description: String,
    pub position: Position,
    pub look_type: u8,
    pub head: u8,
    pub body: u8,
    pub legs: u8,
    pub feet: u8,
    pub addons: u8,
    pub speed: u16,
    pub health_percent: u8,
    pub direction: u8,
}

impl FeTfsStaticEntity {
    /// A copy equal to this entity.
    pub fn duplicate(&self) -> (r: FeTfsStaticEntity)
        ensures
            r == *self,
    {
        FeTfsStaticEntity {
            id: self.id,
            name: self.name.clone(),
            name_description: self.name_description.clone(),
            position: self.position,
            look_type: self.look_type,
            head: self.head,
            body: self.body,
            legs: self.legs,
            feet: self.feet,
            addons: self.addons,
            speed: self.speed,
            health_percent: self.health_percent,
            direction: self.direction,
        }
    }
}

/// Bounded direct-melee damage values of one monster declaration.
#[derive(Debug, Clone, Copy, PartialEq, Eq, Structural)]
pub struct StaticCreatureDirectMeleeDamageRange {
    pub min_damage: u16,
    pub max_damage: u16,
}

/// One declarative loot entry; `chance` uses the scale where `LOOT_CHANCE_SCALE` means always.
#[derive(Debug, Clone, Copy, PartialEq, Eq, Structural)]
pub struct StaticCreatureLootEntry {
    pub item_id: u16,
    pub chance: u32,
    pub min_count: u16,
    pub max_count: u16,
}

/// The deterministic loot roll result for one defeated static creature.
#[derive(Debug, Clone, PartialEq, Eq)]
pub struct StaticCreatureLootRoll {
    pub creature_id: u32,
    pub items: Vec<(u16, u16)>,
}

/// The rectangular spawn area which owns one monster.
#[derive(Debug, Clone, Copy, PartialEq, Eq, Structural)]
pub struct StaticCreatureSpawnArea {
    pub center: Position,
    pub radius: u16,
}

pub open spec fn area_contains(area: StaticCreatureSpawnArea, position: Position) -> bool {
    &&& position.z == area.center.z
    &&& diff(position.x as int, area.center.x as int) <= area.radius
    &&& diff(position.y as int, area.center.y as int) <= area.radius
}

impl StaticCreatureSpawnArea {
    pub fn contains(self, position: Position) -> (r: bool)
        ensures
            r == area_contains(self, position),
    {
        position.z == self.center.z && abs_diff_u16(position.x, self.center.x) <= self.radius
            && abs_diff_u16(position.y, self.center.y) <= self.radius
    }
}

/// Spawn identity with the bounded lifecycle state of one installed static creature.
#[derive(Debug, Clone, PartialEq, Eq)]
pub struct StaticCreatureLifecycle {
    pub id: u32,
    pub spawn_position: Position,
    pub position: Position,
    pub active: bool,
    pub health_percent: u8,
    pub activated_at_tick: u64,
    pub inactive_since_tick: Option<u64>,
    pub reactivation_due_tick: Option<u64>,
    pub respawn_interval_seconds: u32,
}

/// The compact restart snapshot of an installed static creature.
#[derive(Debug, Clone, Copy, PartialEq, Eq, Structural)]
pub struct StaticCreatureRuntimeSnapshot {
    pub id: u32,
    pub position: Position,
    pub active: bool,
    pub health_percent: u8,
    pub reactivation_remaining_seconds: Option<u32>,
    pub direct_melee_cooldown_remaining_ticks: Option<u32>,
    pub direct_melee_damage_sequence: u64,
}

#[derive(Debug, Clone, Copy, Default, PartialEq, Eq, Structural)]
pub struct StaticCreatureRuntimeRestoreSummary {
    pub restored: usize,
    pub ignored_unknown: usize,
}

#[derive(Debug, Clone, Copy, PartialEq, Eq, Structural)]
pub struct StaticCreatureResetSummary {
    pub reactivated: usize,
    pub deferred_by_player_occupancy: usize,
    pub deferred_by_static_creature_occupancy: usize,
}

/// Selection policy for externally triggered static creature movement.
#[derive(Debug, Clone, Copy, PartialEq, Eq, Structural)]
pub enum StaticCreatureDecisionPolicy {
    Disabled,
    ClockwiseAdjacent,
}

#[derive(Debug, Clone, Copy, PartialEq, Eq, Structural)]
pub struct StaticCreatureTargetSelection {
    pub creature_id: u32,
    pub target_player_id: Option<u64>,
    pub max_range: u8,
}

#[derive(Debug, Clone, Copy, PartialEq, Eq, Structural)]
pub enum StaticCreatureTargetStepOutcome {
    NoTarget,
    AlreadyAdjacent { target_player_id: u64 },
    Blocked { target_player_id: u64 },
    Moved { target_player_id: u64, direction: CardinalDirection, from: Position, to: Position },
}

#[derive(Debug, Clone, Copy, PartialEq, Eq, Structural)]
pub struct StaticCreatureMoveDecision {
    pub creature_id: u32,
    pub direction: CardinalDirection,
}

#[derive(Debug, Clone, PartialEq, Eq)]
pub struct StaticCreatureDecisionBatch {
    pub decisions: Vec<StaticCreatureMoveDecision>,
    pub skipped: usize,
}

impl Default for StaticCreatureDecisionBatch {
    fn default() -> (r: StaticCreatureDecisionBatch)
        ensures
            r.decisions@.len() == 0,
            r.skipped == 0,
    {
        StaticCreatureDecisionBatch { decisions: Vec::new(), skipped: 0 }
    }
}

/// The live state of one installed static creature.
#[derive(Debug, Clone)]
pub struct StaticCreatureRuntime {
    pub entity: FeTfsStaticEntity,
    pub is_npc: bool,
    pub experience_reward: u64,
    pub loot: Vec<StaticCreatureLootEntry>,
    pub spawn_position: Position,
    pub monster_spawn_area: Option<StaticCreatureSpawnArea>,
    pub active: bool,
    pub health_percent: u8,
    pub activated_at_tick: u64,
    pub inactive_since_tick: Option<u64>,
    pub reactivation_due_tick: Option<u64>,
    pub respawn_interval_seconds: u32,
    pub melee_cooldown_ticks: Option<u64>,
    pub next_melee_due_tick: u64,
    pub direct_melee_damage_range: Option<StaticCreatureDirectMeleeDamageRange>,
    pub direct_melee_damage_sequence: u64,
    pub target_player_id: Option<u64>,
}

} // verus!
