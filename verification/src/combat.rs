//! Typed combat events, spell casts, defenses, fight modes and their outcomes.

use vstd::prelude::*;
use crate::error::CoreError;
use crate::progression::PlayerRespawnState;

verus! {

/// Bounded maximum for declarative distance weapons.
pub const MAX_DISTANCE_WEAPON_RANGE: u8 = 5;
pub const MAX_COMBAT_EVENT_DAMAGE: u16 = 10_000;
pub const MAX_COMBAT_INTERVAL_TICKS: u16 = 60;
pub const MAX_SPELL_MANA_COST: u16 = 10_000;

#[derive(Debug, Clone, Copy, PartialEq, Eq, Structural)]
pub struct PlayerDamageOutcome {
    pub attacker_id: u64,
    pub target_id: u64,
    pub requested_damage: u16,
    pub applied_damage: u16,
    pub remaining_health: u16,
    pub defeated: bool,
}

/// A bounded damage transition for a static creature, in health percentage points.
#[derive(Debug, Clone, Copy, PartialEq, Eq, Structural)]
pub struct StaticCreatureDamageOutcome {
    pub attacker_id: u64,
    pub target_id: u32,
    pub requested_damage: u16,
    pub applied_damage: u8,
    pub remaining_health_percent: u8,
    pub deactivated: bool,
}

#[derive(Debug, Clone, Copy, PartialEq, Eq, Structural)]
pub enum CombatDamageType {
    Physical,
    Fire,
    Energy,
    Earth,
    Ice,
    Holy,
    Death,
}

/// The validated delivery rule of a combat event.
#[derive(Debug, Clone, Copy, PartialEq, Eq, Structural)]
pub enum CombatDelivery {
    AdjacentMelee,
    /// Distance shot, validated against Chebyshev distance on the same floor when applied.
    RangedDistance { max_range: u8 },
}

/// A profile-neutral flat physical mitigation.
#[derive(Debug, Clone, Copy, Default, PartialEq, Eq, Structural)]
pub struct PlayerCombatDefense {
    pub physical_flat_reduction: u16,
}

pub open spec fn mitigated(defense: PlayerCombatDefense, requested: u16) -> u16 {
    if requested >= defense.physical_flat_reduction { (requested - defense.physical_flat_reduction) as u16 } else { 0 }
}

impl PlayerCombatDefense {
    pub fn new(physical_flat_reduction: u16) -> (r: Result<PlayerCombatDefense, CoreError>)
        ensures
            physical_flat_reduction > MAX_COMBAT_EVENT_DAMAGE ==> r == Err::<PlayerCombatDefense, CoreError>(CoreError::InvalidCombatDefense),
            physical_flat_reduction <= MAX_COMBAT_EVENT_DAMAGE ==> r == Ok::<PlayerCombatDefense, CoreError>(PlayerCombatDefense { physical_flat_reduction }),
    {
        if physical_flat_reduction > MAX_COMBAT_EVENT_DAMAGE {
            return Err(CoreError::InvalidCombatDefense);
        }
        Ok(PlayerCombatDefense { physical_flat_reduction })
    }

    pub fn mitigate_physical(self, requested_damage: u16) -> (r: u16)
        ensures
            r == mitigated(self, requested_damage),
    {
        requested_damage.saturating_sub(self.physical_flat_reduction)
    }
}

#[derive(Debug, Clone, Copy, Default, PartialEq, Eq, Structural)]
pub enum PlayerFightMode {
    #[default]
    Attack,
    Balanced,
    Defense,
}

#[derive(Debug, Clone, Copy, Default, PartialEq, Eq, Structural)]
pub struct PlayerFightModeState {
    pub mode: PlayerFightMode,
    pub chase: bool,
    pub secure: bool,
}

/// Server-tick spacing between two accepted events from the same attacker.
#[derive(Debug, Clone, Copy, PartialEq, Eq, Structural)]
pub struct CombatAttackTiming {
    pub interval_ticks: u16,
}

impl CombatAttackTiming {
    pub fn new(interval_ticks: u16) -> (r: Result<CombatAttackTiming, CoreError>)
        ensures
            (interval_ticks == 0 || interval_ticks > MAX_COMBAT_INTERVAL_TICKS) ==> r == Err::<CombatAttackTiming, CoreError>(CoreError::InvalidCombatEvent),
            !(interval_ticks == 0 || interval_ticks > MAX_COMBAT_INTERVAL_TICKS) ==> r == Ok::<CombatAttackTiming, CoreError>(CombatAttackTiming { interval_ticks }),
    {
        if interval_ticks == 0 || interval_ticks > MAX_COMBAT_INTERVAL_TICKS {
            return Err(CoreError::InvalidCombatEvent);
        }
        Ok(CombatAttackTiming { interval_ticks })
    }
}

/// One validated server-owned combat request.
#[derive(Debug, Clone, Copy, PartialEq, Eq, Structural)]
pub struct PlayerCombatEvent {
    pub attacker_id: u64,
    pub target_id: u64,
    pub delivery: CombatDelivery,
    pub damage_type: CombatDamageType,
    pub requested_damage: u16,
    pub timing: CombatAttackTiming,
}

impl PlayerCombatEvent {
    pub fn adjacent_melee(attacker_id: u64, target_id: u64, damage_type: CombatDamageType, requested_damage: u16,
        timing: CombatAttackTiming) -> (r: Result<PlayerCombatEvent, CoreError>)
        ensures
            (requested_damage == 0 || requested_damage > MAX_COMBAT_EVENT_DAMAGE) ==> r == Err::<PlayerCombatEvent, CoreError>(CoreError::InvalidCombatEvent),
            !(requested_damage == 0 || requested_damage > MAX_COMBAT_EVENT_DAMAGE) ==> r == Ok::<PlayerCombatEvent, CoreError>(PlayerCombatEvent {
                attacker_id, target_id, delivery: CombatDelivery::AdjacentMelee, damage_type, requested_damage, timing }),
    {
        if requested_damage == 0 || requested_damage > MAX_COMBAT_EVENT_DAMAGE {
            return Err(CoreError::InvalidCombatEvent);
        }
        Ok(PlayerCombatEvent { attacker_id, target_id, delivery: CombatDelivery::AdjacentMelee, damage_type, requested_damage, timing })
    }

    /// Declares one distance-weapon shot with a range of at most `MAX_DISTANCE_WEAPON_RANGE`.
    pub fn distance_shot(attacker_id: u64, target_id: u64, damage_type: CombatDamageType, requested_damage: u16,
        timing: CombatAttackTiming, declared_range: u8) -> (r: Result<PlayerCombatEvent, CoreError>)
        ensures
            (requested_damage == 0 || requested_damage > MAX_COMBAT_EVENT_DAMAGE || declared_range == 0 || declared_range > MAX_DISTANCE_WEAPON_RANGE)
                ==> r == Err::<PlayerCombatEvent, CoreError>(CoreError::InvalidCombatEvent),
            !(requested_damage == 0 || requested_damage > MAX_COMBAT_EVENT_DAMAGE || declared_range == 0 || declared_range > MAX_DISTANCE_WEAPON_RANGE)
                ==> r == Ok::<PlayerCombatEvent, CoreError>(PlayerCombatEvent { attacker_id, target_id,
                    delivery: CombatDelivery::RangedDistance { max_range: declared_range }, damage_type, requested_damage, timing }),
    {
        if requested_damage == 0 || requested_damage > MAX_COMBAT_EVENT_DAMAGE || declared_range == 0
            || declared_range > MAX_DISTANCE_WEAPON_RANGE {
            return Err(CoreError::InvalidCombatEvent);
        }
        Ok(PlayerCombatEvent { attacker_id, target_id, delivery: CombatDelivery::RangedDistance { max_range: declared_range },
            damage_type, requested_damage, timing })
    }
}

#[derive(Debug, Clone, Copy, Default, PartialEq, Eq, Structural)]
pub struct PlayerCombatCooldown {
    pub next_attack_tick: u64,
}

#[derive(Debug, Clone, Copy, PartialEq, Eq, Structural)]
pub struct PlayerCombatEventOutcome {
    pub damage: PlayerDamageOutcome,
    pub damage_type: CombatDamageType,
    pub mitigated_damage: u16,
    pub next_attack_tick: u64,
}

/// A server-owned spell-cast request: resource and timing accounting only.
#[derive(Debug, Clone, Copy, PartialEq, Eq, Structural)]
pub struct PlayerSpellCastEvent {
    pub caster_id: u64,
    pub spell_id: u16,
    pub mana_cost: u16,
    pub timing: CombatAttackTiming,
}

impl PlayerSpellCastEvent {
    pub fn new(caster_id: u64, spell_id: u16, mana_cost: u16, timing: CombatAttackTiming) -> (r: Result<PlayerSpellCastEvent, CoreError>)
        ensures
            (spell_id == 0 || mana_cost == 0 || mana_cost > MAX_SPELL_MANA_COST) ==> r == Err::<PlayerSpellCastEvent, CoreError>(CoreError::InvalidSpellCastEvent),
            !(spell_id == 0 || mana_cost == 0 || mana_cost > MAX_SPELL_MANA_COST) ==> r == Ok::<PlayerSpellCastEvent, CoreError>(PlayerSpellCastEvent {
                caster_id, spell_id, mana_cost, timing }),
    {
        if spell_id == 0 || mana_cost == 0 || mana_cost > MAX_SPELL_MANA_COST {
            return Err(CoreError::InvalidSpellCastEvent);
        }
        Ok(PlayerSpellCastEvent { caster_id, spell_id, mana_cost, timing })
    }
}

#[derive(Debug, Clone, Copy, Default, PartialEq, Eq, Structural)]
pub struct PlayerSpellCooldown {
    pub next_cast_tick: u64,
}

#[derive(Debug, Clone, Copy, PartialEq, Eq, Structural)]
pub struct PlayerSpellCastOutcome {
    pub caster_id: u64,
    pub spell_id: u16,
    pub mana_spent: u16,
    pub remaining_mana: u16,
    pub next_cast_tick: u64,
}

/// Result of one explicit static-creature attack against its selected player target.
#[derive(Debug, Clone, Copy, PartialEq, Eq)]
pub enum StaticCreatureTargetAttackOutcome {
    NoTarget,
    CooldownNotDue { creature_id: u32, due_tick: u64 },
    TargetNotAdjacent { creature_id: u32, target_player_id: u64 },
    Applied {
        creature_id: u32,
        target_player_id: u64,
        requested_damage: u16,
        applied_damage: u16,
        remaining_health: u16,
        death_state: Option<PlayerRespawnState>,
    },
}

} // verus!
