#![allow(unused_imports, dead_code, unused_variables, unused_mut)]

use std::collections::{BTreeMap, BTreeSet};
use forgotten_core::combat::{CombatAttackTiming, CombatDamageType, CombatDelivery, MAX_COMBAT_EVENT_DAMAGE, MAX_COMBAT_INTERVAL_TICKS, MAX_DISTANCE_WEAPON_RANGE, MAX_SPELL_MANA_COST, PlayerCombatCooldown, PlayerCombatDefense, PlayerCombatEvent, PlayerCombatEventOutcome, PlayerDamageOutcome, PlayerFightMode, PlayerFightModeState, PlayerSpellCastEvent, PlayerSpellCastOutcome, PlayerSpellCooldown, StaticCreatureDamageOutcome, StaticCreatureTargetAttackOutcome};
use forgotten_core::commands::{DeterministicWorldCommand, DeterministicWorldCommandBatch, DeterministicWorldCommandBatchError, DeterministicWorldCommandKey, MAX_DETERMINISTIC_COMMAND_BATCH};
use forgotten_core::conditions::{ConditionMap, MAX_CONDITION_DURATION_SECONDS, MAX_SPEED_BONUS_PERCENT, PlayerCondition, PlayerConditionKind, PlayerConditionOutcome, advance_conditions, pending_condition_damage};
use forgotten_core::creatures::{FeTfsStaticEntity, LOOT_CHANCE_SCALE, MAX_STATIC_CREATURE_TARGET_RANGE, MAX_STATIC_LOOT_ENTRIES, MAX_TFS_STATIC_SPAWNS, StaticCreatureDecisionBatch, StaticCreatureDecisionPolicy, StaticCreatureDirectMeleeDamageRange, StaticCreatureLifecycle, StaticCreatureLootEntry, StaticCreatureLootRoll, StaticCreatureMoveDecision, StaticCreatureResetSummary, StaticCreatureRuntime, StaticCreatureRuntimeRestoreSummary, StaticCreatureRuntimeSnapshot, StaticCreatureSpawnArea, StaticCreatureTargetSelection, StaticCreatureTargetStepOutcome};
use forgotten_core::error::{CoreError};
use forgotten_core::geometry::{CardinalDirection, Position, abs_diff_u16, abs_diff_u8};
use forgotten_core::interaction::{PlayerInteractionIntent, PlayerItemUseCreatureIntent, PlayerItemUseCreatureOutcome, PlayerItemUseCreatureTarget, PlayerItemUseCreatureTargetOutcome, PlayerItemUseExIntent, PlayerItemUseExOutcome, PlayerItemUseIntent, PlayerItemUseOutcome, PlayerRenderSnapshot};
use forgotten_core::items::{EquipmentSlot, ItemContainer, ItemContent, ItemInstance, MAX_CONTAINER_CAPACITY, MAX_CONTENT_SLOTS, MAX_ITEM_STACK_COUNT, MAX_PLAYER_CONTAINERS, MAX_PLAYER_CONTAINER_NAME_BYTES, NativeItemPresentation, NativeItemPresentationCatalog, PlayerContainer, PlayerContainers, PlayerEquipment, opt_u16_eq};
use forgotten_core::keys::{map_keys, map_keys_pos, map_keys_u32, set_keys, set_keys_u32};
use forgotten_core::lifecycle::{LifecycleCommand, ServerStatus};
use forgotten_core::map::{MAX_WORLD_MAP_ITEMS_PER_TILE, MAX_WORLD_MAP_TILES, MAX_WORLD_MAP_TOWNS, MAX_WORLD_MAP_WAYPOINTS, OTBM_TILE_FLAG_PROTECTION_ZONE, OtbmMapHeader, WorldMap, WorldMapItem, WorldMapItemSourceIdentity, WorldMapSource, WorldMapSourceRevision, WorldMapTile, WorldMapTown};
use forgotten_core::progression::{BaseVocation, DeathLossPolicy, ExperienceAwardPolicy, ExperienceAwardStage, FOOD_REGENERATION_HEALTH_PER_INTERVAL, FOOD_REGENERATION_INTERVAL_SECONDS, MAX_EXPERIENCE_AWARD_RATE, MAX_PROGRESSION_MULTIPLIER_MILLI, MAX_REGENERATION_ELAPSED_SECONDS, MINIMUM_PLAYER_SKILL_LEVEL, PROGRESSION_MULTIPLIER_SCALE, Player, PlayerDeathLossOutcome, PlayerExperienceAwardOutcome, PlayerMagicAdvanceOutcome, PlayerProgression, PlayerProgressionAttempts, PlayerProgressionRules, PlayerRegenerationOutcome, PlayerRegenerationRules, PlayerRespawnOutcome, PlayerRespawnState, PlayerSkill, PlayerSkillTryOutcome, PlayerSkills, PlayerVitals, ProgressionMultiplier, RegenerationRule, SkillProgress, VocationId, VocationLevelUpGains, advance_regeneration_schedule, classic_experience_for_level, fixed_percent_of, level_for_experience, progress_percent, regeneration_gain, same_progression, saturating_mul_u64};
use forgotten_core::spawns::{FeTfsStaticSpawnCollection};
use forgotten_core::text::{is_blank, is_whitespace_char, trim_text};
use forgotten_core::world::{PlayerFoodWindow, PlayerRegenerationSchedule, WorldState};
use forgotten_core::world::movement::{EmptyWorldManifest, EmptyWorldViewport};
use forgotten_core::world::party::{PartyDisplayRelation, PartySharedExperienceEligibility, PartySharedExperienceRules, PartySharedExperienceState};
use forgotten_core::world::statics::{DYNAMIC_ID_BASE};
use forgotten_core::world::trade::{MAX_TRADE_ITEMS_PER_SIDE, PlayerTradeExecution, PlayerTradeSession, TradeItemReference};
use forgotten_core::world::transfers::{GenericInventoryMove, GenericInventoryMoveOutcome, GenericMoveSource, GenericMoveSourceKind, GenericMoveTargetKind, GenericPlacement, PlayerContainerStackToContainerOutcome, PlayerContainerStackToEquipmentOutcome, PlayerContainerToEquipmentOutcome, PlayerContainerToEquipmentSwapOutcome, PlayerEquipmentSlotSwapOutcome, PlayerEquipmentStackToContainerOutcome, PlayerEquipmentToContainerOutcome, PlayerGroundDropOutcome, PlayerGroundDropSource};

#[test]
fn frags_accumulate_per_killer_and_drive_white_skull() {
    let mut world = WorldState::default();
    world
        .add_player(Player {
            id: 1,
            account_id: 1,
            name: "Killer".into(),
            position: Position {
                x: 100,
                y: 100,
                z: 7,
            },
            level: 8,
            experience: 4200,
            skill_points: 0,
        })
        .unwrap();

    assert_eq!(world.player_frag_count(1), 0);
    assert!(!world.player_has_white_skull(1));

    assert_eq!(world.record_player_frag(1), 1);
    assert!(world.player_has_white_skull(1));
    assert_eq!(world.record_player_frag(1), 2);
    assert_eq!(world.player_frag_count(1), 2);

    // A bystander has no frags.
    assert_eq!(world.player_frag_count(2), 0);
}
