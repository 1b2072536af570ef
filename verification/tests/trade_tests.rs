#![allow(unused_imports, dead_code, unused_variables, unused_mut)]

use std::collections::{BTreeMap, BTreeSet};
use forgotten_core::combat::{CombatAttackTiming, CombatDamageType, CombatDelivery, MAX_COMBAT_EVENT_DAMAGE, MAX_COMBAT_INTERVAL_TICKS, MAX_DISTANCE_WEAPON_RANGE, MAX_SPELL_MANA_COST, PlayerCombatCooldown, PlayerCombatDefense, PlayerCombatEvent, PlayerCombatEventOutcome, PlayerDamageOutcome, PlayerFightMode, PlayerFightModeState, PlayerSpellCastEvent, PlayerSpellCastOutcome, PlayerSpellCooldown, StaticCreatureDamageOutcome, StaticCreatureTargetAttackOutcome};
use forgotten_core::commands::{DeterministicWorldCommand, DeterministicWorldCommandBatch, DeterministicWorldCommandBatchError, DeterministicWorldCommandKey, MAX_DETERMINISTIC_COMMAND_BATCH};
use forgotten_core::conditions::{ConditionMap, MAX_CONDITION_DURATION_SECONDS, MAX_SPEED_BONUS_PERCENT, PlayerCondition, PlayerConditionKind, PlayerConditionOutcome, advance_conditions, pending_condition_damage};
use forgotten_core::creatures::{FeTfsStaticEntity, LOOT_CHANCE_SCALE, MAX_STATIC_CREATURE_TARGET_RANGE, MAX_STATIC_LOOT_ENTRIES, MAX_TFS_STATIC_SPAWNS, StaticCreatureDecisionBatch, StaticCreatureDecisionPolicy, StaticCreatureDirectMeleeDamageRange, StaticCreatureLifecycle, StaticCreatureLootEntry, StaticCreatureLootRoll, StaticCreatureMoveDecision, StaticCreatureResetSummary, StaticCreatureRuntime, StaticCreatureRuntimeRestoreSummary, StaticCreatureRuntimeSnapshot, StaticCreatureSpawnArea, StaticCreatureTargetSelection, StaticCreatureTargetStepOutcome};
use forgotten_core::error::{CoreError};
use forgotten_core::geometry::{CardinalDirection, Position, abs_diff_u16, abs_diff_u8};
use forgotten_core::interaction::{PlayerInteractionIntent, PlayerItemUseCreatureIntent, PlayerItemUseCreatureOutcome, PlayerItemUseCreatureTarget, PlayerItemUseCreatureTargetOutcome, PlayerItemUseExIntent, PlayerItemUseExOutcome, PlayerItemUseIntent, PlayerItemUseOutcome, PlayerRenderSnapshot};
use forgotten_core::items::{EquipmentSlot, ItemContainer, ItemContent, ItemInstance, MAX_CONTAINER_CAPACITY, MAX_CONTENT_SLOTS, MAX_ITEM_STACK_COUNT, MAX_PLAYER_CONTAINERS, MAX_PLAYER_CONTAINER_NAME_BYTES, NativeItemPresentation, NativeItemPresentationCatalog, PlayerContainer, PlayerContainers, PlayerEquipment, opt_u16_eq};
use forgotten_core::keys::{map_keys, map_keys_pos, map_keys_u32, set_keys, set_keys_u32};
use forgotten_core::lifecycle::{LifecycleCommand, ServerStatus};
use forgotten_core::map::{MAX_WORLD_MAP_ITEMS_PER_TILE, MAX_WORLD_MAP_TILES, MAX_WORLD_MAP_TOWNS, MAX_WORLD_MAP_WAYPOINTS, OTBM_TILE_FLAG_PROTECTION_ZONE, OtbmMapHeader, WorldMap, WorldMapItem, WorldMapItemSourceIdentity, WorldMapSource, WorldMapSourceRevision, WorldMapTile, WorldMapTown};
use forgotten_core::progression::{BaseVocation, DeathLossPolicy, ExperienceAwardPolicy, ExperienceAwardStage, FOOD_REGENERATION_HEALTH_PER_INTERVAL, FOOD_REGENERATION_INTERVAL_SECONDS, MAX_EXPERIENCE_AWARD_RATE, MAX_PROGRESSION_MULTIPLIER_MILLI, MAX_REGENERATION_ELAPSED_SECONDS, MINIMUM_PLAYER_SKILL_LEVEL, PROGRESSION_MULTIPLIER_SCALE, Player, PlayerDeathLossOutcome, PlayerExperienceAwardOutcome, PlayerMagicAdvanceOutcome, PlayerProgression, PlayerProgressionAttempts, PlayerProgressionRules, PlayerRegenerationOutcome, PlayerRegenerationRules, PlayerRespawnOutcome, PlayerRespawnState, PlayerSkill, PlayerSkillTryOutcome, PlayerSkills, PlayerVitals, ProgressionMultiplier, RegenerationRule, SkillProgress, VocationId, VocationLevelUpGains, advance_regeneration_schedule, classic_experience_for_level, fixed_percent_of, level_for_experience, progress_percent, regeneration_gain, same_progression, saturating_mul_u64};
use forgotten_core::spawns::{FeTfsStaticSpawnCollection};
use forgotten_core::text::{is_blank, is_whitespace_char, trim_text};
use forgotten_core::world::{PlayerFoodWindow, PlayerRegenerationSchedule, WorldState};
use forgotten_core::world::movement::{EmptyWorldManifest, EmptyWorldViewport};
use forgotten_core::world::party::{PartyDisplayRelation, PartySharedExperienceEligibility, PartySharedExperienceRules, PartySharedExperienceState};
use forgotten_core::world::statics::{DYNAMIC_ID_BASE};
use forgotten_core::world::trade::{MAX_TRADE_ITEMS_PER_SIDE, PlayerTradeExecution, PlayerTradeSession, TradeItemReference};
use forgotten_core::world::transfers::{GenericInventoryMove, GenericInventoryMoveOutcome, GenericMoveSource, GenericMoveSourceKind, GenericMoveTargetKind, GenericPlacement, PlayerContainerStackToContainerOutcome, PlayerContainerStackToEquipmentOutcome, PlayerContainerToEquipmentOutcome, PlayerContainerToEquipmentSwapOutcome, PlayerEquipmentSlotSwapOutcome, PlayerEquipmentStackToContainerOutcome, PlayerEquipmentToContainerOutcome, PlayerGroundDropOutcome, PlayerGroundDropSource};

fn two_players() -> WorldState {
    let mut world = WorldState::default();
    world
        .add_player_with_vitals(
            Player {
                id: 1,
                account_id: 1,
                name: "Alice".into(),
                position: Position {
                    x: 100,
                    y: 100,
                    z: 7,
                },
                level: 8,
                experience: 4200,
                skill_points: 0,
            },
            PlayerVitals::default(),
        )
        .unwrap();
    world
        .add_player_with_vitals(
            Player {
                id: 2,
                account_id: 2,
                name: "Bob".into(),
                position: Position {
                    x: 101,
                    y: 100,
                    z: 7,
                },
                level: 8,
                experience: 4200,
                skill_points: 0,
            },
            PlayerVitals::default(),
        )
        .unwrap();
    world
}

fn give_container(world: &mut WorldState, owner: u64, container_id: u8) {
    let mut containers = world.player_containers(owner).unwrap().duplicate();
    let backpack = PlayerContainer::new(
        container_id,
        ItemInstance::new(2854, 1).unwrap(),
        "Backpack",
        false,
        20,
    )
    .unwrap();
    containers.insert(backpack).unwrap();
    world.replace_player_containers(owner, containers).unwrap();
}

fn add_item(world: &mut WorldState, owner: u64, container_id: u8, item_id: u16) -> usize {
    let mut containers = world.player_containers(owner).unwrap().duplicate();
    let mut container = containers.container(container_id).unwrap().duplicate();
    let index = container
        .items
        .merge_or_insert_stack(ItemInstance::new(item_id, 1).unwrap())
        .unwrap()
        .0;
    containers.replace_window(container_id, container);
    world.replace_player_containers(owner, containers).unwrap();
    index
}

#[test]
fn trade_open_gates_self_unknown_and_busy_participants() {
    let mut world = two_players();
    assert!(matches!(
        world.open_player_trade(1, 1),
        Err(CoreError::TradeWithSelf)
    ));
    assert!(matches!(
        world.open_player_trade(1, 99),
        Err(CoreError::UnknownPlayer(99))
    ));
    world.open_player_trade(1, 2).unwrap();
}

#[test]
fn staging_resets_acceptance_and_enforces_bounds() {
    let mut world = two_players();
    give_container(&mut world, 1, 0);
    give_container(&mut world, 2, 0);
    world.open_player_trade(1, 2).unwrap();

    let index = add_item(&mut world, 1, 0, 3031);
    world
        .stage_trade_item(
            1,
            TradeItemReference {
                container_id: 0,
                item_index: index,
            },
        )
        .unwrap();
    // A single acceptance is not enough; restaging resets both flags.
    assert!(!world.accept_player_trade(1).unwrap());
    assert!(world
        .stage_trade_item(
            1,
            TradeItemReference {
                container_id: 0,
                item_index: index
            }
        )
        .is_err()); // duplicate staging is rejected without changing the offer
    let session = world.player_trade(1).unwrap().clone();
    assert_eq!(session.initiator_items.len(), 1);
    // The duplicate rejection left the earlier acceptance intact.
    assert!(session.initiator_accepted);
    assert!(!session.counterparty_accepted);
}

#[test]
fn accepted_trade_swaps_items_atomically() {
    let mut world = two_players();
    give_container(&mut world, 1, 0);
    give_container(&mut world, 2, 0);
    let a_index = add_item(&mut world, 1, 0, 2160); // Alice offers item A
    let b_index = add_item(&mut world, 2, 0, 2392); // Bob offers item B
    world.open_player_trade(1, 2).unwrap();
    world
        .stage_trade_item(
            1,
            TradeItemReference {
                container_id: 0,
                item_index: a_index,
            },
        )
        .unwrap();
    world
        .stage_trade_item(
            2,
            TradeItemReference {
                container_id: 0,
                item_index: b_index,
            },
        )
        .unwrap();
    assert!(!world.accept_player_trade(1).unwrap());
    assert!(world.accept_player_trade(2).unwrap());

    let execution = world.execute_player_trade(2).unwrap();
    assert_eq!(execution.initiator, 1);
    assert_eq!(execution.counterparty, 2);
    assert_eq!(execution.initiator_gave.len(), 1);
    assert_eq!(execution.counterparty_gave.len(), 1);

    // The offered items changed owners.
    let alice_items = world
        .player_containers(1)
        .unwrap()
        .container(0)
        .unwrap();
    assert!(alice_items.items.iter().iter().any(|item| item.server_id == 2392));
    let bob_items = world
        .player_containers(2)
        .unwrap()
        .container(0)
        .unwrap();
    assert!(bob_items.items.iter().iter().any(|item| item.server_id == 2160));
    // Trade closed for both sides.
    assert!(world.player_trade(1).is_none());
    assert!(world.player_trade(2).is_none());
}

#[test]
fn missing_staged_item_aborts_swap_without_touching_inventories() {
    let mut world = two_players();
    give_container(&mut world, 1, 0);
    give_container(&mut world, 2, 0);
    let a_index = add_item(&mut world, 1, 0, 2160);
    let b_index = add_item(&mut world, 2, 0, 2392);
    world.open_player_trade(1, 2).unwrap();
    world
        .stage_trade_item(
            1,
            TradeItemReference {
                container_id: 0,
                item_index: a_index,
            },
        )
        .unwrap();
    world
        .stage_trade_item(
            2,
            TradeItemReference {
                container_id: 0,
                item_index: b_index,
            },
        )
        .unwrap();
    // Bob removes his offered item after staging (e.g. dropped it).
    {
        let mut containers = world.player_containers(2).unwrap().duplicate();
        let mut container = containers.container(0).unwrap().duplicate();
        container.items.remove(b_index);
        containers.replace_window(0, container);
        world.replace_player_containers(2, containers).unwrap();
    }
    world.accept_player_trade(1).unwrap();
    world.accept_player_trade(2).unwrap();
    let error = world.execute_player_trade(1).unwrap_err();
    assert!(matches!(
        error,
        CoreError::TradeItemMissing { player_id: 2, .. }
    ));
    // Anti-dupe: nothing moved on Alice's side either.
    let alice_items = world
        .player_containers(1)
        .unwrap()
        .container(0)
        .unwrap();
    assert!(alice_items.items.iter().iter().any(|item| item.server_id == 2160));
    // A failed swap leaves the session open so players can renegotiate or cancel.
    assert!(world.player_trade(1).is_some());
}
