//! The library's error type.

use vstd::prelude::*;
use crate::geometry::Position;
use crate::lifecycle::{LifecycleCommand, ServerStatus};
use crate::items::EquipmentSlot;

verus! {

#[derive(Debug, PartialEq, Eq)]
pub enum CoreError {
    DuplicatePlayer(u64),
    EmptyPlayerName,
    InvalidContainerCapacity(u16),
    InvalidContainerName(usize),
    TooManyPlayerContainers(usize),
    /// A persisted party snapshot violated membership or live-state invariants.
    InvalidPartySnapshot(String),
    ContainerFull { capacity: u16 },
    /// Nested item content would exceed the bounded container depth.
    InvalidItemContentDepth,
    InvalidItemId(u16),
    InvalidClientThingId(u16),
    InvalidStaticCreatureTargetRange(u8),
    EmptyEquipmentSlot { player_id: u64, slot: EquipmentSlot },
    OccupiedEquipmentSlot { player_id: u64, slot: EquipmentSlot },
    UnknownPlayerContainer { player_id: u64, container_id: u8 },
    UnknownPlayerContainerItem { player_id: u64, container_id: u8, item_index: usize },
    DuplicateItemPresentation(u16),
    InvalidItemStackCount(u16),
    InvalidItemTransferCount { requested: u16, available: u16 },
    IncompatibleItemStacks,
    SamePlayerContainerTransfer { player_id: u64, container_id: u8 },
    SameEquipmentSlotTransfer { player_id: u64, slot: EquipmentSlot },
    ItemStackCountOverflow { existing: u16, incoming: u16 },
    InvalidMovement { from: Position, to: Position },
    MapBoundary { position: Position },
    MapTileLimit(usize),
    MapTileItemLimit(usize),
    MapTownLimit(usize),
    MapWaypointLimit(usize),
    StaticSpawnLimit(usize),
    DuplicateStaticSpawnId(u32),
    EmptyStaticSpawnName,
    /// A dynamic spawn request named an entity that no installed static creature matches.
    UnknownEntityName(String),
    /// A dynamic spawn target tile was rejected by occupancy validation.
    SpawnPositionRejected(Position),
    /// The dynamic spawn registry is exhausted.
    DynamicSpawnLimit(usize),
    /// A player attempted to trade with themself.
    TradeWithSelf,
    /// One trade participant is already in another trade.
    PlayerAlreadyTrading(u64),
    /// No live trade session exists for this player.
    NoActiveTrade(u64),
    /// The trade-side staging set is full.
    TradeItemLimit(usize),
    /// The same container slot was staged twice on one side.
    DuplicateTradeItem,
    /// The referenced staged item was not found.
    UnknownTradeItem,
    /// One side's staged item no longer resolves against the live inventory.
    TradeItemMissing { player_id: u64, container_id: u8, item_index: usize },
    /// The authoritative re-validation of an accepted trade failed.
    TradeValidationFailed(String),
    InvalidStaticCreatureHealthPercent(u8),
    InvalidStaticCreatureReactivationDelay { id: u32, remaining_seconds: u32, interval_seconds: u32 },
    InvalidStaticCreatureMeleeCooldownDelay { id: u32, remaining_ticks: u32, cooldown_ticks: u64 },
    UnknownStaticCreatureSchedule,
    StaticCreatureOccupiesPosition(Position),
    PlayerOccupiesStaticCreaturePosition(Position),
    PlayerOccupiesPosition(Position),
    UnknownStaticCreature(u32),
    InactiveStaticCreature(u32),
    StaticNpcNotAttackable(u32),
    StaticCreatureMovementBlocked(Position),
    InvalidMap(String),
    InvalidTransition { state: ServerStatus, command: LifecycleCommand },
    UnknownPlayer(u64),
    PlayerNotInParty(u64),
    PlayerAlreadyInParty(u64),
    PlayerNotInPartyFree(u64),
    PartyInvitationNotFound { leader_id: u64, invitee_id: u64 },
    DuplicatePartyInvitation { leader_id: u64, invitee_id: u64 },
    PartyLeadershipTargetNotMember { leader_id: u64, new_leader_id: u64 },
    UnknownTown(u32),
    PlayerTownUnassigned(u64),
    InvalidPlayerRespawnState(u64),
    PlayerIsDead(u64),
    SelectedPlayerIsDead(u64),
    PlayerIsNotDead(u64),
    MissingRespawnPosition(u64),
    DeathLossAlreadyApplied(u64),
    InvalidFixedDeathLossPercent(u8),
    SelfInteractionNotAllowed(u64),
    InvalidPlayerVitals(u64),
    InvalidProgressionMultiplier(u32),
    InvalidExperienceAwardPolicy,
    InvalidSkillProgress { level: u16, percent: u8 },
    InvalidRegenerationInterval,
    InvalidPlayerCondition,
    InvalidDeathLossPolicy,
    InvalidCombatEvent,
    InvalidCombatDefense,
    InvalidSpellCastEvent,
    InvalidItemUseIntent,
    ItemUseOutOfRange { player_id: u64, from: Position, to: Position },
    MissingMapTile(Position),
    UnknownMapItem { position: Position, stack_index: u8, expected_server_id: u16 },
    InsufficientMana { player_id: u64, required_mana: u16, available_mana: u16 },
    SpellCooldownActive { caster_id: u64, current_tick: u64, next_cast_tick: u64 },
    TargetAlreadyDefeated(u64),
    CombatCooldownActive { attacker_id: u64, current_tick: u64, next_attack_tick: u64 },
    CombatOutOfRange { attacker_id: u64, target_id: u64 },
    StaticCreatureCombatOutOfRange { attacker_id: u64, target_id: u32 },
}

} // verus!
