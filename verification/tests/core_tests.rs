#![allow(unused_imports, dead_code, unused_variables, unused_mut)]

use std::collections::{BTreeMap, BTreeSet};
use forgotten_core::combat::{CombatAttackTiming, CombatDamageType, CombatDelivery, MAX_COMBAT_EVENT_DAMAGE, MAX_COMBAT_INTERVAL_TICKS, MAX_DISTANCE_WEAPON_RANGE, MAX_SPELL_MANA_COST, PlayerCombatCooldown, PlayerCombatDefense, PlayerCombatEvent, PlayerCombatEventOutcome, PlayerDamageOutcome, PlayerFightMode, PlayerFightModeState, PlayerSpellCastEvent, PlayerSpellCastOutcome, PlayerSpellCooldown, StaticCreatureDamageOutcome, StaticCreatureTargetAttackOutcome};
use forgotten_core::commands::{DeterministicWorldCommand, DeterministicWorldCommandBatch, DeterministicWorldCommandBatchError, DeterministicWorldCommandKey, MAX_DETERMINISTIC_COMMAND_BATCH};
use forgotten_core::conditions::{ConditionMap, MAX_CONDITION_DURATION_SECONDS, MAX_SPEED_BONUS_PERCENT, PlayerCondition, PlayerConditionKind, PlayerConditionOutcome, advance_conditions, pending_condition_damage};
use forgotten_core::creatures::{FeTfsStaticEntity, LOOT_CHANCE_SCALE, MAX_STATIC_CREATURE_TARGET_RANGE, MAX_STATIC_LOOT_ENTRIES, MAX_TFS_STATIC_SPAWNS, StaticCreatureDecisionBatch, StaticCreatureDecisionPolicy, StaticCreatureDirectMeleeDamageRange, StaticCreatureLifecycle, StaticCreatureLootEntry, StaticCreatureLootRoll, StaticCreatureMoveDecision, StaticCreatureResetSummary, StaticCreatureRuntime, StaticCreatureRuntimeRestoreSummary, StaticCreatureRuntimeSnapshot, StaticCreatureSpawnArea, StaticCreatureTargetSelection, StaticCreatureTargetStepOutcome};
use forgotten_core::error::{CoreError};
use forgotten_core::geometry::{CardinalDirection, Position, abs_diff_u16, abs_diff_u8};
use forgotten_core::interaction::{PlayerInteractionIntent, PlayerItemUseCreatureIntent, PlayerItemUseCreatureOutcome, PlayerItemUseCreatureTarget, PlayerItemUseCreatureTargetOutcome, PlayerItemUseExIntent, PlayerItemUseExOutcome, PlayerItemUseIntent, PlayerItemUseOutcome, PlayerRenderSnapshot};
use forgotten_core::items::{EquipmentSlot, ItemContainer, ItemContent, ItemInstance, MAX_CONTAINER_CAPACITY, MAX_CONTENT_SLOTS, MAX_ITEM_STACK_COUNT, MAX_PLAYER_CONTAINERS, MAX_PLAYER_CONTAINER_NAME_BYTES, NativeItemPresentation, NativeItemPresentationCatalog, PlayerContainer, PlayerContainers, PlayerEquipment, opt_u16_eq};
use forgotten_core::keys::{map_keys, map_keys_pos, map_keys_u32, set_keys, set_keys_u32};
use forgotten_core::lifecycle::{LifecycleCommand, ServerStatus};
use forgotten_core::map::{MAX_WORLD_MAP_ITEMS_PER_TILE, MAX_WORLD_MAP_TILES, MAX_WORLD_MAP_TOWNS, MAX_WORLD_MAP_WAYPOINTS, OTBM_TILE_FLAG_PROTECTION_ZONE, OtbmMapHeader, WorldMap, WorldMapItem, WorldMapItemSourceIdentity, WorldMapSource, WorldMapSourceRevision, WorldMapTile, WorldMapTown};
use forgotten_core::progression::{BaseVocation, DeathLossPolicy, ExperienceAwardPolicy, ExperienceAwardStage, FOOD_REGENERATION_HEALTH_PER_INTERVAL, FOOD_REGENERATION_INTERVAL_SECONDS, MAX_EXPERIENCE_AWARD_RATE, MAX_PROGRESSION_MULTIPLIER_MILLI, MAX_REGENERATION_ELAPSED_SECONDS, MINIMUM_PLAYER_SKILL_LEVEL, PROGRESSION_MULTIPLIER_SCALE, Player, PlayerDeathLossOutcome, PlayerExperienceAwardOutcome, PlayerMagicAdvanceOutcome, PlayerProgression, PlayerProgressionAttempts, PlayerProgressionRules, PlayerRegenerationOutcome, PlayerRegenerationRules, PlayerRespawnOutcome, PlayerRespawnState, PlayerSkill, PlayerSkillTryOutcome, PlayerSkills, PlayerVitals, ProgressionMultiplier, RegenerationRule, SkillProgress, VocationId, VocationLevelUpGains, advance_regeneration_schedule, classic_experience_for_level, fixed_percent_of, level_for_experience, progress_percent, regeneration_gain, same_progression, saturating_mul_u64};
use forgotten_core::spawns::{FeTfsStaticSpawnCollection};
use forgotten_core::text::{is_blank, is_whitespace_char, trim_text};
use forgotten_core::world::{PlayerFoodWindow, PlayerRegenerationSchedule, WorldState};
use forgotten_core::world::movement::{EmptyWorldManifest, EmptyWorldViewport};
use forgotten_core::world::party::{PartyDisplayRelation, PartySharedExperienceEligibility, PartySharedExperienceRules, PartySharedExperienceState};
use forgotten_core::world::statics::{DYNAMIC_ID_BASE};
use forgotten_core::world::trade::{MAX_TRADE_ITEMS_PER_SIDE, PlayerTradeExecution, PlayerTradeSession, TradeItemReference};
use forgotten_core::world::transfers::{GenericInventoryMove, GenericInventoryMoveOutcome, GenericMoveSource, GenericMoveSourceKind, GenericMoveTargetKind, GenericPlacement, PlayerContainerStackToContainerOutcome, PlayerContainerStackToEquipmentOutcome, PlayerContainerToEquipmentOutcome, PlayerContainerToEquipmentSwapOutcome, PlayerEquipmentSlotSwapOutcome, PlayerEquipmentStackToContainerOutcome, PlayerEquipmentToContainerOutcome, PlayerGroundDropOutcome, PlayerGroundDropSource};

fn loot_test_creature(id: u32) -> FeTfsStaticEntity {
    FeTfsStaticEntity {
        id,
        name: "Rat".into(),
        name_description: String::new(),
        position: Position {
            x: 104,
            y: 100,
            z: 7,
        },
        look_type: 21,
        head: 0,
        body: 0,
        legs: 0,
        feet: 0,
        addons: 0,
        speed: 134,
        health_percent: 100,
        direction: 2,
    }
}

fn always_loot(item_id: u16) -> StaticCreatureLootEntry {
    StaticCreatureLootEntry {
        item_id,
        chance: LOOT_CHANCE_SCALE,
        min_count: 2,
        max_count: 5,
    }
}

#[test]
fn static_loot_roll_is_deterministic_and_respects_bounds() {
    let creature_id = 0x4000_0001;
    let collection = FeTfsStaticSpawnCollection::with_loot_tables(
        vec![loot_test_creature(creature_id)],
        BTreeMap::new(),
        BTreeMap::new(),
        BTreeMap::new(),
        BTreeMap::new(),
        BTreeSet::new(),
        BTreeMap::from([(
            creature_id,
            vec![
                always_loot(2148),
                StaticCreatureLootEntry {
                    item_id: 2666,
                    chance: 0,
                    min_count: 1,
                    max_count: 1,
                },
            ],
        )]),
    )
    .unwrap();
    let mut world = WorldState::default();
    world.install_static_creatures(&collection).unwrap();

    let first = world.roll_static_creature_loot(creature_id, 42).unwrap();
    let second = world.roll_static_creature_loot(creature_id, 42).unwrap();
    assert_eq!(first, second);
    assert_eq!(first.items.len(), 1);
    let (item_id, count) = first.items[0];
    assert_eq!(item_id, 2148);
    assert!((2..=5).contains(&count));
}

#[test]
fn static_loot_roll_skips_npcs_inactive_and_empty_tables() {
    let npc_id = 0x4000_0001;
    let monster_id = 0x4000_0002;
    let mut npc = loot_test_creature(npc_id);
    npc.name = "Guide".into();
    let collection = FeTfsStaticSpawnCollection::with_loot_tables(
        vec![npc, loot_test_creature(monster_id)],
        BTreeMap::new(),
        BTreeMap::new(),
        BTreeMap::new(),
        BTreeMap::new(),
        BTreeSet::from([npc_id]),
        BTreeMap::from([(monster_id, vec![always_loot(2148)])]),
    )
    .unwrap();
    let mut world = WorldState::default();
    world.install_static_creatures(&collection).unwrap();

    assert_eq!(
        world
            .roll_static_creature_loot(npc_id, 7)
            .unwrap()
            .items
            .len(),
        0
    );
    assert_eq!(
        world
            .roll_static_creature_loot(monster_id, 7)
            .unwrap()
            .items
            .len(),
        1
    );
    world.deactivate_static_creature(monster_id).unwrap();
    assert_eq!(
        world
            .roll_static_creature_loot(monster_id, 7)
            .unwrap()
            .items
            .len(),
        0
    );
}

#[test]
fn defeated_creature_loot_roll_stays_valid_for_the_deactivated_monster_only() {
    let npc_id = 0x4000_0001;
    let monster_id = 0x4000_0002;
    let mut npc = loot_test_creature(npc_id);
    npc.name = "Guide".into();
    let collection = FeTfsStaticSpawnCollection::with_loot_tables(
        vec![npc, loot_test_creature(monster_id)],
        BTreeMap::new(),
        BTreeMap::new(),
        BTreeMap::new(),
        BTreeMap::new(),
        BTreeSet::from([npc_id]),
        BTreeMap::from([(monster_id, vec![always_loot(2148)])]),
    )
    .unwrap();
    let mut world = WorldState::default();
    world.install_static_creatures(&collection).unwrap();

    // The deactivated post-defeat monster still rolls its table for corpse population,
    // while an NPC never does.
    world.deactivate_static_creature(monster_id).unwrap();
    let defeated = world
        .roll_defeated_static_creature_loot(monster_id, 7)
        .unwrap();
    assert_eq!(defeated.items.len(), 1);
    assert_eq!(
        defeated.items,
        world
            .roll_defeated_static_creature_loot(monster_id, 7)
            .unwrap()
            .items,
        "equal seeds must produce equal loot"
    );
    assert_eq!(
        world
            .roll_defeated_static_creature_loot(npc_id, 7)
            .unwrap()
            .items
            .len(),
        0
    );
    assert!(matches!(
        world.roll_defeated_static_creature_loot(999, 7),
        Err(CoreError::UnknownStaticCreature(999))
    ));
}

#[test]
fn static_loot_tables_reject_unknown_and_invalid_entries() {
    let creature_id = 0x4000_0001;
    assert!(FeTfsStaticSpawnCollection::with_loot_tables(
        vec![loot_test_creature(creature_id)],
        BTreeMap::new(),
        BTreeMap::new(),
        BTreeMap::new(),
        BTreeMap::new(),
        BTreeSet::new(),
        BTreeMap::from([(
            999,
            vec![StaticCreatureLootEntry {
                item_id: 2148,
                chance: LOOT_CHANCE_SCALE,
                min_count: 1,
                max_count: 1,
            }]
        )]),
    )
    .is_err());
    assert!(FeTfsStaticSpawnCollection::with_loot_tables(
        vec![loot_test_creature(creature_id)],
        BTreeMap::new(),
        BTreeMap::new(),
        BTreeMap::new(),
        BTreeMap::new(),
        BTreeSet::new(),
        BTreeMap::from([(
            creature_id,
            vec![StaticCreatureLootEntry {
                item_id: 2148,
                chance: LOOT_CHANCE_SCALE,
                min_count: 5,
                max_count: 2,
            }]
        )]),
    )
    .is_err());
}

fn player() -> Player {
    Player {
        id: 7,
        account_id: 2,
        name: "Knight".to_owned(),
        position: Position {
            x: 100,
            y: 100,
            z: 7,
        },
        level: 1,
        experience: 0,
        skill_points: 0,
    }
}

fn party_player(id: u64, name: &str, x: u16) -> Player {
    Player {
        id,
        account_id: id,
        name: name.to_owned(),
        position: Position { x, y: 100, z: 7 },
        level: 1,
        experience: 0,
        skill_points: 0,
    }
}

#[test]
fn party_invitation_acceptance_forms_one_deterministic_live_party() {
    let mut world = WorldState::default();
    let leader = party_player(7, "Knight", 100);
    let member = party_player(8, "Druid", 101);
    world.add_player(leader.clone()).unwrap();
    world.add_player(member.clone()).unwrap();

    assert_eq!(world.invite_to_party(leader.id, member.id), Ok(()));
    assert_eq!(world.player_party_leader(leader.id), Ok(Some(leader.id)));
    assert_eq!(world.player_party_leader(member.id), Ok(None));
    assert_eq!(
        world.invite_to_party(leader.id, member.id),
        Err(CoreError::DuplicatePartyInvitation {
            leader_id: leader.id,
            invitee_id: member.id,
        })
    );

    assert_eq!(world.accept_party_invitation(member.id, leader.id), Ok(()));
    assert_eq!(world.player_party_leader(member.id), Ok(Some(leader.id)));
    assert_eq!(world.player_party_members(leader.id), Ok(vec![member.id]));
}

#[test]
fn party_shared_experience_eligibility_is_bounded_and_rekeys_with_leadership() {
    let rules = PartySharedExperienceRules::default();
    let mut world = WorldState::default();
    let mut leader = party_player(7, "Knight", 100);
    leader.level = 30;
    let mut member = party_player(8, "Druid", 102);
    member.level = 20;
    world.add_player(leader.clone()).unwrap();
    world.add_player(member.clone()).unwrap();
    world.invite_to_party(leader.id, member.id).unwrap();

    assert_eq!(
        world
            .set_party_shared_experience_requested(leader.id, true, rules)
            .unwrap(),
        PartySharedExperienceState {
            requested: true,
            eligibility: PartySharedExperienceEligibility::EmptyParty,
        }
    );
    world.accept_party_invitation(member.id, leader.id).unwrap();
    assert_eq!(
        world
            .party_shared_experience_state(leader.id, rules)
            .unwrap(),
        PartySharedExperienceState {
            requested: true,
            eligibility: PartySharedExperienceEligibility::MemberInactive,
        }
    );
    world
        .record_party_shared_experience_activity(leader.id)
        .unwrap();
    world
        .record_party_shared_experience_activity(member.id)
        .unwrap();
    assert_eq!(
        world
            .party_shared_experience_state(leader.id, rules)
            .unwrap(),
        PartySharedExperienceState {
            requested: true,
            eligibility: PartySharedExperienceEligibility::Eligible,
        }
    );
    assert_eq!(
        world
            .party_shared_experience_recipients(member.id, rules)
            .unwrap(),
        Some(vec![leader.id, member.id])
    );
    world
        .transfer_party_leadership(leader.id, member.id)
        .unwrap();
    assert_eq!(
        world
            .party_shared_experience_state(member.id, rules)
            .unwrap(),
        PartySharedExperienceState {
            requested: true,
            eligibility: PartySharedExperienceEligibility::Eligible,
        }
    );
    world.advance_ticks(rules.activity_window_ticks as u16 + 1);
    assert_eq!(
        world
            .party_shared_experience_state(member.id, rules)
            .unwrap(),
        PartySharedExperienceState {
            requested: true,
            eligibility: PartySharedExperienceEligibility::MemberInactive,
        }
    );
    world.leave_party(leader.id).unwrap();
    assert_eq!(world.player_party_leader(member.id), Ok(None));
    assert_eq!(
        world.party_shared_experience_state(member.id, rules),
        Err(CoreError::PlayerNotInParty(member.id))
    );
}

#[test]
fn party_shared_experience_rejects_deterministic_level_and_range_inputs() {
    let rules = PartySharedExperienceRules::default();
    let mut level_world = WorldState::default();
    let mut leader = party_player(7, "Knight", 100);
    leader.level = 30;
    let mut low_member = party_player(8, "Druid", 101);
    low_member.level = 19;
    level_world.add_player(leader.clone()).unwrap();
    level_world.add_player(low_member.clone()).unwrap();
    level_world
        .invite_to_party(leader.id, low_member.id)
        .unwrap();
    level_world
        .accept_party_invitation(low_member.id, leader.id)
        .unwrap();
    level_world
        .record_party_shared_experience_activity(leader.id)
        .unwrap();
    level_world
        .record_party_shared_experience_activity(low_member.id)
        .unwrap();
    assert_eq!(
        level_world
            .set_party_shared_experience_requested(leader.id, true, rules)
            .unwrap()
            .eligibility,
        PartySharedExperienceEligibility::LevelSpreadTooLarge
    );

    let mut range_world = WorldState::default();
    let range_leader = party_player(17, "Paladin", 100);
    let range_member = party_player(18, "Sorcerer", 131);
    range_world.add_player(range_leader.clone()).unwrap();
    range_world.add_player(range_member.clone()).unwrap();
    range_world
        .invite_to_party(range_leader.id, range_member.id)
        .unwrap();
    range_world
        .accept_party_invitation(range_member.id, range_leader.id)
        .unwrap();
    range_world
        .record_party_shared_experience_activity(range_leader.id)
        .unwrap();
    range_world
        .record_party_shared_experience_activity(range_member.id)
        .unwrap();
    assert_eq!(
        range_world
            .set_party_shared_experience_requested(range_leader.id, true, rules)
            .unwrap()
            .eligibility,
        PartySharedExperienceEligibility::TooFarAway
    );
}

#[test]
fn validated_static_npcs_remain_inert_under_monster_target_and_combat_primitives() {
    let npc_id = 0x4000_0001;
    let npc_position = Position {
        x: 101,
        y: 100,
        z: 7,
    };
    let collection = FeTfsStaticSpawnCollection::with_combat_metadata_and_npc_ids(
        vec![FeTfsStaticEntity {
            id: npc_id,
            name: "Guide".into(),
            name_description: String::new(),
            position: npc_position,
            look_type: 128,
            head: 0,
            body: 0,
            legs: 0,
            feet: 0,
            addons: 0,
            speed: 134,
            health_percent: 100,
            direction: 2,
        }],
        BTreeMap::new(),
        BTreeMap::new(),
        BTreeMap::new(),
        BTreeMap::new(),
        BTreeSet::from([npc_id]),
    )
    .unwrap();
    let mut world = WorldState::default();
    world.install_static_creatures(&collection).unwrap();
    world.add_player(party_player(7, "Knight", 100)).unwrap();
    let map = WorldMap::new(
        "npc-inert",
        Position {
            x: 100,
            y: 100,
            z: 7,
        },
    );

    assert_eq!(
        world.select_static_creature_target(npc_id, 8).unwrap(),
        StaticCreatureTargetSelection {
            creature_id: npc_id,
            target_player_id: None,
            max_range: 8,
        }
    );
    assert_eq!(world.static_creature_target(npc_id), Ok(None));
    assert_eq!(
        world.step_static_creature_toward_target(npc_id, &map),
        Ok(StaticCreatureTargetStepOutcome::NoTarget)
    );
    assert_eq!(
        world.apply_static_creature_target_damage(npc_id, 10, &map),
        Ok(StaticCreatureTargetAttackOutcome::NoTarget)
    );
    assert_eq!(
        world.apply_static_creature_melee_damage(7, npc_id, 10),
        Err(CoreError::StaticNpcNotAttackable(npc_id))
    );
    assert_eq!(
        world.static_creature(npc_id).unwrap().position,
        npc_position
    );
}

#[test]
fn party_member_leave_preserves_leader_and_disbands_an_empty_party() {
    let mut world = WorldState::default();
    let leader = party_player(7, "Knight", 100);
    let member = party_player(8, "Druid", 101);
    world.add_player(leader.clone()).unwrap();
    world.add_player(member.clone()).unwrap();
    world.invite_to_party(leader.id, member.id).unwrap();
    world.accept_party_invitation(member.id, leader.id).unwrap();

    assert_eq!(world.leave_party(member.id), Ok(()));
    assert_eq!(world.player_party_leader(member.id), Ok(None));
    assert_eq!(world.player_party_leader(leader.id), Ok(None));
    assert_eq!(
        world.player_party_members(leader.id),
        Err(CoreError::PlayerNotInParty(leader.id))
    );
}

#[test]
fn party_leader_leave_transfers_to_lowest_member_and_preserves_invitations() {
    let mut world = WorldState::default();
    let leader = party_player(7, "Knight", 100);
    let first_member = party_player(8, "Druid", 101);
    let second_member = party_player(9, "Paladin", 102);
    let invitee = party_player(10, "Sorcerer", 103);
    for player in [
        leader.clone(),
        first_member.clone(),
        second_member.clone(),
        invitee.clone(),
    ] {
        world.add_player(player).unwrap();
    }
    world.invite_to_party(leader.id, first_member.id).unwrap();
    world
        .accept_party_invitation(first_member.id, leader.id)
        .unwrap();
    world.invite_to_party(leader.id, second_member.id).unwrap();
    world
        .accept_party_invitation(second_member.id, leader.id)
        .unwrap();
    world.invite_to_party(leader.id, invitee.id).unwrap();

    assert_eq!(world.leave_party(leader.id), Ok(()));
    assert_eq!(
        world.player_party_leader(first_member.id),
        Ok(Some(first_member.id))
    );
    assert_eq!(
        world.player_party_leader(second_member.id),
        Ok(Some(first_member.id))
    );
    assert_eq!(
        world.player_party_members(first_member.id),
        Ok(vec![second_member.id])
    );
    assert_eq!(
        world.accept_party_invitation(invitee.id, first_member.id),
        Ok(())
    );
}

#[test]
fn explicit_party_leadership_transfer_reassigns_members_and_invitations() {
    let mut world = WorldState::default();
    let leader = party_player(7, "Knight", 100);
    let first_member = party_player(8, "Druid", 101);
    let new_leader = party_player(9, "Paladin", 102);
    let invitee = party_player(10, "Sorcerer", 103);
    for player in [
        leader.clone(),
        first_member.clone(),
        new_leader.clone(),
        invitee.clone(),
    ] {
        world.add_player(player).unwrap();
    }
    world.invite_to_party(leader.id, first_member.id).unwrap();
    world
        .accept_party_invitation(first_member.id, leader.id)
        .unwrap();
    world.invite_to_party(leader.id, new_leader.id).unwrap();
    world
        .accept_party_invitation(new_leader.id, leader.id)
        .unwrap();
    world.invite_to_party(leader.id, invitee.id).unwrap();

    assert_eq!(
        world.transfer_party_leadership(leader.id, invitee.id),
        Err(CoreError::PartyLeadershipTargetNotMember {
            leader_id: leader.id,
            new_leader_id: invitee.id,
        })
    );
    assert_eq!(
        world.transfer_party_leadership(leader.id, new_leader.id),
        Ok(())
    );
    assert_eq!(
        world.player_party_leader(leader.id),
        Ok(Some(new_leader.id))
    );
    assert_eq!(
        world.player_party_leader(first_member.id),
        Ok(Some(new_leader.id))
    );
    assert_eq!(
        world.player_party_leader(new_leader.id),
        Ok(Some(new_leader.id))
    );
    assert_eq!(
        world.player_party_members(new_leader.id),
        Ok(vec![leader.id, first_member.id])
    );
    assert_eq!(
        world.accept_party_invitation(invitee.id, leader.id),
        Err(CoreError::PartyInvitationNotFound {
            leader_id: leader.id,
            invitee_id: invitee.id,
        })
    );
    assert_eq!(
        world.accept_party_invitation(invitee.id, new_leader.id),
        Ok(())
    );
}

#[test]
fn party_snapshots_round_trip_and_reject_stale_or_invalid_restores() {
    let mut world = WorldState::default();
    let leader = party_player(7, "Snap Leader", 100);
    let first = party_player(8, "Snap One", 101);
    let second = party_player(9, "Snap Two", 102);
    for player in [&leader, &first, &second] {
        world.add_player(player.clone()).unwrap();
    }
    world.invite_to_party(leader.id, first.id).unwrap();
    world.accept_party_invitation(first.id, leader.id).unwrap();
    world.invite_to_party(leader.id, second.id).unwrap();
    world.accept_party_invitation(second.id, leader.id).unwrap();

    let snapshots = world.party_snapshots();
    assert_eq!(snapshots.len(), 1);
    assert_eq!(snapshots[0].0, leader.id);
    assert_eq!(snapshots[0].1, vec![first.id, second.id]);

    // Simulate a restart: fresh world, same players, no live party state.
    let mut restored = WorldState::default();
    for player in [&leader, &first, &second] {
        restored.add_player(player.clone()).unwrap();
    }
    restored
        .restore_party_snapshot(leader.id, &[second.id, first.id])
        .unwrap();
    assert_eq!(restored.player_party_leader(second.id), Ok(Some(leader.id)));
    assert_eq!(
        restored.player_party_members(leader.id),
        Ok(vec![first.id, second.id])
    );
    assert_eq!(restored.party_snapshots(), snapshots);

    // Stale snapshot must never clobber live state formed after it was taken.
    let mut live = WorldState::default();
    for player in [&leader, &first] {
        live.add_player(player.clone()).unwrap();
    }
    live.restore_party_snapshot(leader.id, &[first.id]).unwrap();
    assert!(matches!(
        live.restore_party_snapshot(first.id, &[]),
        Err(CoreError::InvalidPartySnapshot(message))
            if message.contains("already holds")
    ));

    // Structural validation: leaderless and duplicate-member forms are rejected.
    let mut clean = WorldState::default();
    for player in [&leader, &first] {
        clean.add_player(player.clone()).unwrap();
    }
    assert!(matches!(
        clean.restore_party_snapshot(leader.id, &[leader.id]),
        Err(CoreError::InvalidPartySnapshot(message))
            if message.contains("must not list the leader")
    ));
    assert!(matches!(
        clean.restore_party_snapshot(leader.id, &[first.id, first.id]),
        Err(CoreError::InvalidPartySnapshot(message))
            if message.contains("duplicate")
    ));
    // Unknown players cannot be resurrected into a party by a stale snapshot.
    assert_eq!(
        clean.restore_party_snapshot(leader.id, &[999]),
        Err(CoreError::UnknownPlayer(999))
    );
    assert_eq!(clean.player_party_leader(leader.id), Ok(None));
}

#[test]
fn add_existing_party_member_attaches_only_to_live_unaffiliated_players() {
    let mut world = WorldState::default();
    let leader = party_player(7, "Hydra Leader", 100);
    let member = party_player(8, "Hydra One", 101);
    let outsider = party_player(9, "Hydra Two", 102);
    for player in [&leader, &member, &outsider] {
        world.add_player(player.clone()).unwrap();
    }
    // No live party yet: direct attach must fail.
    assert_eq!(
        world.add_existing_party_member(leader.id, member.id),
        Err(CoreError::PlayerNotInParty(leader.id))
    );
    world.invite_to_party(leader.id, outsider.id).unwrap();
    world
        .accept_party_invitation(outsider.id, leader.id)
        .unwrap();
    // Already-affiliated targets are rejected without disturbing the party.
    assert_eq!(
        world.add_existing_party_member(leader.id, outsider.id),
        Err(CoreError::PlayerNotInPartyFree(outsider.id))
    );
    assert_eq!(
        world.party_snapshots(),
        vec![(leader.id, vec![outsider.id])]
    );
    world
        .add_existing_party_member(leader.id, member.id)
        .unwrap();
    assert_eq!(
        world.player_party_members(leader.id),
        Ok(vec![member.id, outsider.id])
    );
    // Self-attach is structurally invalid.
    assert!(matches!(
        world.add_existing_party_member(leader.id, leader.id),
        Err(CoreError::InvalidPartySnapshot(_))
    ));
}

#[test]
fn party_display_relations_are_authoritative_and_deterministic() {
    let mut world = WorldState::default();
    let leader = party_player(7, "Knight", 100);
    let member = party_player(8, "Druid", 101);
    let invitee = party_player(9, "Paladin", 102);
    let unrelated = party_player(10, "Sorcerer", 103);
    for player in [
        leader.clone(),
        member.clone(),
        invitee.clone(),
        unrelated.clone(),
    ] {
        world.add_player(player).unwrap();
    }
    world.invite_to_party(leader.id, member.id).unwrap();
    world.accept_party_invitation(member.id, leader.id).unwrap();
    world.invite_to_party(leader.id, invitee.id).unwrap();

    assert_eq!(
        world.party_display_relations(leader.id),
        Ok(vec![
            (leader.id, PartyDisplayRelation::Leader),
            (member.id, PartyDisplayRelation::Member),
            (invitee.id, PartyDisplayRelation::InvitationToLeader),
            (unrelated.id, PartyDisplayRelation::Unrelated),
        ])
    );
    assert_eq!(
        world.party_display_relations(member.id),
        Ok(vec![
            (leader.id, PartyDisplayRelation::Leader),
            (member.id, PartyDisplayRelation::Member),
            (invitee.id, PartyDisplayRelation::InvitationToLeader),
            (unrelated.id, PartyDisplayRelation::Unrelated),
        ])
    );
    assert_eq!(
        world.party_display_relations(invitee.id),
        Ok(vec![
            (leader.id, PartyDisplayRelation::InvitationFromLeader),
            (member.id, PartyDisplayRelation::Unrelated),
            (invitee.id, PartyDisplayRelation::Unrelated),
            (unrelated.id, PartyDisplayRelation::Unrelated),
        ])
    );
}

#[test]
fn party_leader_without_members_disbands_and_revocation_cleans_empty_invitation_party() {
    let mut world = WorldState::default();
    let leader = party_player(7, "Knight", 100);
    let invitee = party_player(8, "Druid", 101);
    world.add_player(leader.clone()).unwrap();
    world.add_player(invitee.clone()).unwrap();

    world.invite_to_party(leader.id, invitee.id).unwrap();
    assert_eq!(world.revoke_party_invitation(leader.id, invitee.id), Ok(()));
    assert_eq!(world.player_party_leader(leader.id), Ok(None));
    assert_eq!(
        world.revoke_party_invitation(leader.id, invitee.id),
        Err(CoreError::PlayerNotInParty(leader.id))
    );

    world.invite_to_party(leader.id, invitee.id).unwrap();
    assert_eq!(world.leave_party(leader.id), Ok(()));
    assert_eq!(world.player_party_leader(leader.id), Ok(None));
    assert_eq!(
        world.accept_party_invitation(invitee.id, leader.id),
        Err(CoreError::PartyInvitationNotFound {
            leader_id: leader.id,
            invitee_id: invitee.id,
        })
    );
}

#[test]
fn player_removal_cleans_party_membership_and_pending_invitations() {
    let mut world = WorldState::default();
    let leader = party_player(7, "Knight", 100);
    let member = party_player(8, "Druid", 101);
    let invitee = party_player(9, "Paladin", 102);
    for player in [leader.clone(), member.clone(), invitee.clone()] {
        world.add_player(player).unwrap();
    }
    world.invite_to_party(leader.id, member.id).unwrap();
    world.accept_party_invitation(member.id, leader.id).unwrap();
    world.invite_to_party(leader.id, invitee.id).unwrap();

    world.remove_player(member.id).unwrap();
    assert_eq!(world.player_party_leader(leader.id), Ok(Some(leader.id)));
    world.remove_player(invitee.id).unwrap();
    assert_eq!(world.player_party_leader(leader.id), Ok(None));
    assert_eq!(
        world.remove_player(member.id),
        Err(CoreError::UnknownPlayer(member.id))
    );
}

#[test]
fn lifecycle_is_explicit_and_safe() {
    assert_eq!(
        ServerStatus::Offline.apply(LifecycleCommand::Start),
        Ok(ServerStatus::Starting)
    );
    assert_eq!(
        ServerStatus::Starting.apply(LifecycleCommand::Ready),
        Ok(ServerStatus::Online)
    );
    assert!(ServerStatus::Online.apply(LifecycleCommand::Ready).is_err());
}

#[test]
fn deterministic_command_batch_orders_worker_handoffs_and_rejects_duplicates() {
    let mut batch = DeterministicWorldCommandBatch::new(3).unwrap();
    let commands = [
        DeterministicWorldCommand {
            key: DeterministicWorldCommandKey {
                tick: 8,
                player_id: 9,
                session_sequence: 2,
            },
            payload: "third",
        },
        DeterministicWorldCommand {
            key: DeterministicWorldCommandKey {
                tick: 7,
                player_id: 10,
                session_sequence: 1,
            },
            payload: "first",
        },
        DeterministicWorldCommand {
            key: DeterministicWorldCommandKey {
                tick: 8,
                player_id: 9,
                session_sequence: 1,
            },
            payload: "second",
        },
    ];
    for command in commands.clone() {
        batch.push(command).unwrap();
    }
    assert_eq!(batch.len(), 3);
    assert_eq!(
        batch.push(commands[1].clone()),
        Err(DeterministicWorldCommandBatchError::DuplicateKey(
            commands[1].key
        ))
    );
    assert_eq!(
        batch
            .drain_sorted()
            .into_iter()
            .map(|command| command.payload)
            .collect::<Vec<_>>(),
        vec!["first", "second", "third"]
    );
    assert!(batch.is_empty());
}


#[test]
fn runtime_item_instances_and_equipment_slots_are_bounded_and_replaceable() {
    assert_eq!(ItemInstance::new(0, 1), Err(CoreError::InvalidItemId(0)));
    assert_eq!(
        ItemInstance::new(2376, 0),
        Err(CoreError::InvalidItemStackCount(0))
    );
    assert_eq!(
        ItemInstance::new(2376, MAX_ITEM_STACK_COUNT + 1),
        Err(CoreError::InvalidItemStackCount(MAX_ITEM_STACK_COUNT + 1))
    );

    // Nested content foundation: insert/take with bounded slots and depth.
    let mut bag = ItemInstance::new(1988, 1).unwrap();
    assert!(bag.contents().is_empty());
    bag.insert_content(ItemInstance::new(2376, 1).unwrap())
        .unwrap();
    // One nesting level: an EMPTY container may sit inside the bag...
    let inner = ItemInstance::new(1987, 1).unwrap();
    bag.insert_content(inner.clone()).unwrap();
    assert_eq!(bag.contents().len(), 2);
    let mut filled_inner = inner;
    filled_inner
        .insert_content(ItemInstance::new(2666, 1).unwrap())
        .unwrap();
    // ...but a container that already holds content would deepen past level one.
    assert_eq!(
        bag.insert_content(filled_inner),
        Err(CoreError::InvalidItemContentDepth)
    );
    let mut invalid = ItemInstance::new(2376, 1).unwrap();
    invalid.server_id = 0;
    assert_eq!(
        bag.insert_content(invalid),
        Err(CoreError::InvalidItemId(0))
    );
    for _ in 0..ItemInstance::MAX_CONTENT_SLOTS {
        let _ = bag.take_content(0);
    }
    let filler = ItemInstance::new(2376, 1).unwrap();
    for _ in 0..ItemInstance::MAX_CONTENT_SLOTS {
        bag.insert_content(filler.clone()).unwrap();
    }
    assert_eq!(
        bag.insert_content(filler.clone()),
        Err(CoreError::ContainerFull {
            capacity: ItemInstance::MAX_CONTENT_SLOTS as u16,
        })
    );
    assert!(bag.take_content(0).is_some());
    assert!(bag.take_content(usize::MAX).is_none());

    let sword = ItemInstance::new(2376, 1).unwrap();
    let shield = ItemInstance::new(2512, 1).unwrap();
    let replacement_sword = ItemInstance::new(2400, 1).unwrap();
    let mut equipment = PlayerEquipment::default();
    assert!(equipment.is_empty());
    assert_eq!(
        equipment.equip(EquipmentSlot::RightHand, sword.clone()),
        None
    );
    assert_eq!(
        equipment.equip(EquipmentSlot::LeftHand, shield.clone()),
        None
    );
    assert_eq!(equipment.len(), 2);
    assert_eq!(equipment.item(EquipmentSlot::RightHand), Some(&sword));
    assert_eq!(
        equipment.equip(EquipmentSlot::RightHand, replacement_sword.clone()),
        Some(sword)
    );
    assert_eq!(equipment.unequip(EquipmentSlot::LeftHand), Some(shield));
    assert_eq!(
        equipment.item(EquipmentSlot::RightHand),
        Some(&replacement_sword)
    );
    assert_eq!(equipment.len(), 1);
    assert_eq!(EquipmentSlot::RightHand.code(), 5);
    assert_eq!(EquipmentSlot::from_code(5), Some(EquipmentSlot::RightHand));
    assert_eq!(EquipmentSlot::from_code(11), None);
}

#[test]
fn native_item_presentation_catalog_is_validated_and_duplicate_safe() {
    let presentation = NativeItemPresentation {
        client_thing_id: 102,
        requires_classic_740_subtype: true,
    };
    let mut catalog = NativeItemPresentationCatalog::default();
    catalog.insert(4526, presentation).unwrap();
    assert_eq!(catalog.presentation(4526), Some(presentation));
    assert_eq!(
        catalog.unique_server_id_for_client_thing_id(102),
        Some(4526)
    );
    assert_eq!(catalog.unique_server_id_for_client_thing_id(103), None);
    assert_eq!(catalog.len(), 1);
    catalog
        .insert(
            4527,
            NativeItemPresentation {
                client_thing_id: 102,
                requires_classic_740_subtype: false,
            },
        )
        .unwrap();
    assert_eq!(catalog.unique_server_id_for_client_thing_id(102), None);
    assert!(matches!(
        catalog.insert(
            1,
            NativeItemPresentation {
                client_thing_id: 0,
                requires_classic_740_subtype: false,
            },
        ),
        Err(CoreError::InvalidClientThingId(1))
    ));
    assert_eq!(
        catalog.insert(4526, presentation),
        Err(CoreError::DuplicateItemPresentation(4526))
    );
}

#[test]
fn ordered_item_containers_are_bounded_and_preserve_item_order() {
    assert_eq!(
        ItemContainer::new(0),
        Err(CoreError::InvalidContainerCapacity(0))
    );
    assert_eq!(
        ItemContainer::new(MAX_CONTAINER_CAPACITY + 1),
        Err(CoreError::InvalidContainerCapacity(
            MAX_CONTAINER_CAPACITY + 1
        ))
    );

    let first = ItemInstance::new(2376, 1).unwrap();
    let second = ItemInstance::new(2512, 1).unwrap();
    let mut container = ItemContainer::new(2).unwrap();
    assert!(container.is_empty());
    container.insert(first.clone()).unwrap();
    container.insert(second.clone()).unwrap();
    assert_eq!(container.capacity(), 2);
    assert_eq!(container.item(0), Some(&first));
    assert_eq!(container.item(1), Some(&second));
    assert_eq!(
        container.insert(ItemInstance::new(2463, 1).unwrap()),
        Err(CoreError::ContainerFull { capacity: 2 })
    );
    assert_eq!(container.remove(0), Some(first));
    assert_eq!(container.item(0), Some(&second));
    assert_eq!(container.remove(9), None);
}

#[test]
fn authoritative_player_equipment_replaces_only_when_state_changes() {
    let mut world = WorldState::default();
    world.add_player(player()).unwrap();
    assert!(world.player_equipment(7).unwrap().is_empty());
    assert_eq!(world.revision(), 1);

    let mut equipment = PlayerEquipment::default();
    let sword = ItemInstance::new(2376, 1).unwrap();
    equipment.equip(EquipmentSlot::RightHand, sword.clone());
    assert!(world
        .replace_player_equipment(7, equipment.clone())
        .unwrap());
    assert_eq!(world.revision(), 2);
    assert_eq!(
        world
            .player_equipment(7)
            .unwrap()
            .item(EquipmentSlot::RightHand),
        Some(&sword)
    );
    assert!(!world.replace_player_equipment(7, equipment).unwrap());
    assert_eq!(world.revision(), 2);

    world.remove_player(7).unwrap();
    assert_eq!(world.player_equipment(7), Err(CoreError::UnknownPlayer(7)));
}

#[test]
fn authoritative_equipment_to_container_transfer_is_atomic_and_bounded() {
    let mut world = WorldState::default();
    world.add_player(player()).unwrap();
    let sword = ItemInstance::new(2376, 1).unwrap();
    let shield = ItemInstance::new(2512, 1).unwrap();
    let mut equipment = PlayerEquipment::default();
    equipment.equip(EquipmentSlot::RightHand, sword.clone());
    world.replace_player_equipment(7, equipment).unwrap();

    let backpack =
        PlayerContainer::new(0, ItemInstance::new(1988, 1).unwrap(), "Backpack", false, 1)
            .unwrap();
    let mut containers = PlayerContainers::default();
    containers.insert(backpack.clone()).unwrap();
    world.replace_player_containers(7, containers).unwrap();
    let revision_before_transfer = world.revision();

    let outcome = world
        .move_equipment_item_to_container(7, EquipmentSlot::RightHand, 0)
        .unwrap();
    assert_eq!(outcome.item, sword);
    assert!(world
        .player_equipment(7)
        .unwrap()
        .item(EquipmentSlot::RightHand)
        .is_none());
    assert_eq!(
        world
            .player_containers(7)
            .unwrap()
            .container(0)
            .unwrap()
            .items
            .item(0),
        Some(&sword)
    );
    assert_eq!(world.revision(), revision_before_transfer + 1);

    let revision_before_empty_source = world.revision();
    assert_eq!(
        world.move_equipment_item_to_container(7, EquipmentSlot::RightHand, 0),
        Err(CoreError::EmptyEquipmentSlot {
            player_id: 7,
            slot: EquipmentSlot::RightHand,
        })
    );
    assert_eq!(world.revision(), revision_before_empty_source);

    let mut equipment = world.player_equipment(7).unwrap().clone();
    equipment.equip(EquipmentSlot::LeftHand, shield.clone());
    world.replace_player_equipment(7, equipment).unwrap();
    let revision_before_full_destination = world.revision();
    assert_eq!(
        world.move_equipment_item_to_container(7, EquipmentSlot::LeftHand, 0),
        Err(CoreError::ContainerFull { capacity: 1 })
    );
    assert_eq!(world.revision(), revision_before_full_destination);
    assert_eq!(
        world
            .player_equipment(7)
            .unwrap()
            .item(EquipmentSlot::LeftHand),
        Some(&shield)
    );
    assert_eq!(
        world
            .player_containers(7)
            .unwrap()
            .container(0)
            .unwrap()
            .items
            .item(0),
        Some(&sword)
    );
}

#[test]
fn authoritative_container_to_equipment_transfer_is_atomic_and_bounded() {
    let mut world = WorldState::default();
    world.add_player(player()).unwrap();
    let sword = ItemInstance::new(2376, 1).unwrap();
    let shield = ItemInstance::new(2512, 1).unwrap();
    let mut backpack =
        PlayerContainer::new(0, ItemInstance::new(1988, 1).unwrap(), "Backpack", false, 2)
            .unwrap();
    backpack.items.insert(sword.clone()).unwrap();
    backpack.items.insert(shield.clone()).unwrap();
    let mut containers = PlayerContainers::default();
    containers.insert(backpack).unwrap();
    world.replace_player_containers(7, containers).unwrap();

    let revision_before_transfer = world.revision();
    let outcome = world
        .move_container_item_to_equipment(7, 0, 0, EquipmentSlot::RightHand)
        .unwrap();
    assert_eq!(outcome.item, sword);
    assert_eq!(outcome.to_slot, EquipmentSlot::RightHand);
    assert_eq!(
        world
            .player_equipment(7)
            .unwrap()
            .item(EquipmentSlot::RightHand),
        Some(&sword)
    );
    assert_eq!(
        world
            .player_containers(7)
            .unwrap()
            .container(0)
            .unwrap()
            .items
            .item(0),
        Some(&shield)
    );
    assert_eq!(world.revision(), revision_before_transfer + 1);

    let revision_before_occupied = world.revision();
    assert_eq!(
        world.move_container_item_to_equipment(7, 0, 0, EquipmentSlot::RightHand),
        Err(CoreError::OccupiedEquipmentSlot {
            player_id: 7,
            slot: EquipmentSlot::RightHand,
        })
    );
    assert_eq!(world.revision(), revision_before_occupied);

    let revision_before_missing_item = world.revision();
    assert_eq!(
        world.move_container_item_to_equipment(7, 0, 5, EquipmentSlot::LeftHand),
        Err(CoreError::UnknownPlayerContainerItem {
            player_id: 7,
            container_id: 0,
            item_index: 5,
        })
    );
    assert_eq!(world.revision(), revision_before_missing_item);

    let revision_before_missing_container = world.revision();
    assert_eq!(
        world.move_container_item_to_equipment(7, 1, 0, EquipmentSlot::LeftHand),
        Err(CoreError::UnknownPlayerContainer {
            player_id: 7,
            container_id: 1,
        })
    );
    assert_eq!(world.revision(), revision_before_missing_container);
    assert_eq!(
        world
            .player_containers(7)
            .unwrap()
            .container(0)
            .unwrap()
            .items
            .item(0),
        Some(&shield)
    );
}

#[test]
fn authoritative_generic_inventory_move_covers_splits_swaps_and_atomic_rejection() {
    let mut world = WorldState::default();
    world.add_player(player()).unwrap();

    let sword = ItemInstance::new(2376, 1).unwrap();
    let shield = ItemInstance::new(2512, 1).unwrap();
    let mut backpack = PlayerContainer::new(
        0,
        ItemInstance::new(1988, 1).unwrap(),
        "Backpack",
        false,
        20,
    )
    .unwrap();
    backpack
        .items
        .insert(ItemInstance::new(2544, 60).unwrap())
        .unwrap();
    backpack.items.insert(sword.clone()).unwrap();
    let mut bag =
        PlayerContainer::new(1, ItemInstance::new(1988, 1).unwrap(), "Bag", false, 20).unwrap();
    bag.items
        .insert(ItemInstance::new(2544, 30).unwrap())
        .unwrap();
    let mut containers = PlayerContainers::default();
    containers.insert(backpack).unwrap();
    containers.insert(bag).unwrap();
    world.replace_player_containers(7, containers).unwrap();

    let revision_before_transfer = world.revision();
    let outcome = world
        .execute_generic_inventory_move(
            7,
            GenericInventoryMove {
                source_kind: GenericMoveSourceKind::Container {
                    container_id: 0,
                    index: 1,
                },
                source_count: None,
                target: GenericMoveTargetKind::Equipment {
                    slot: EquipmentSlot::RightHand,
                    allow_swap: false,
                },
            },
        )
        .unwrap();
    assert_eq!(outcome.placement, GenericPlacement::Placed);
    assert_eq!(outcome.moved_item, sword);
    assert_eq!(outcome.remaining_source_count, 0);
    assert_eq!(
        world
            .player_equipment(7)
            .unwrap()
            .item(EquipmentSlot::RightHand),
        Some(&sword)
    );
    assert_eq!(world.revision(), revision_before_transfer + 1);

    let revision_before_split = world.revision();
    let outcome = world
        .execute_generic_inventory_move(
            7,
            GenericInventoryMove {
                source_kind: GenericMoveSourceKind::Container {
                    container_id: 0,
                    index: 0,
                },
                source_count: Some(10),
                target: GenericMoveTargetKind::Container { container_id: 1 },
            },
        )
        .unwrap();
    assert_eq!(outcome.placement, GenericPlacement::MergedOrInserted);
    assert_eq!(outcome.moved_item.count, 10);
    assert_eq!(outcome.remaining_source_count, 50);
    assert_eq!(
        world
            .player_containers(7)
            .unwrap()
            .container(0)
            .unwrap()
            .items
            .item(0),
        Some(&ItemInstance::new(2544, 50).unwrap())
    );
    assert_eq!(
        world
            .player_containers(7)
            .unwrap()
            .container(1)
            .unwrap()
            .items
            .item(0),
        Some(&ItemInstance::new(2544, 40).unwrap())
    );
    assert_eq!(world.revision(), revision_before_split + 1);

    let mut equipment = world.player_equipment(7).unwrap().clone();
    equipment.equip(EquipmentSlot::LeftHand, shield.clone());
    world.replace_player_equipment(7, equipment).unwrap();
    let mut containers = world.player_containers(7).unwrap().clone();
    let mut window = containers.container(0).unwrap().duplicate();
    window.items.insert(sword.clone()).unwrap();
    containers.replace_window(0, window);
    world.replace_player_containers(7, containers).unwrap();
    let outcome = world
        .execute_generic_inventory_move(
            7,
            GenericInventoryMove {
                source_kind: GenericMoveSourceKind::Container {
                    container_id: 0,
                    index: 1,
                },
                source_count: None,
                target: GenericMoveTargetKind::Equipment {
                    slot: EquipmentSlot::LeftHand,
                    allow_swap: true,
                },
            },
        )
        .unwrap();
    assert_eq!(
        outcome.placement,
        GenericPlacement::Swapped {
            displaced: shield.clone()
        }
    );
    assert_eq!(
        world
            .player_equipment(7)
            .unwrap()
            .item(EquipmentSlot::LeftHand),
        Some(&sword)
    );
    assert_eq!(
        world
            .player_containers(7)
            .unwrap()
            .container(0)
            .unwrap()
            .items
            .item(1),
        Some(&shield)
    );

    let revision_before_rejection = world.revision();
    assert_eq!(
        world.execute_generic_inventory_move(
            7,
            GenericInventoryMove {
                source_kind: GenericMoveSourceKind::Container {
                    container_id: 0,
                    index: 1,
                },
                source_count: None,
                target: GenericMoveTargetKind::Equipment {
                    slot: EquipmentSlot::RightHand,
                    allow_swap: false,
                },
            },
        ),
        Err(CoreError::OccupiedEquipmentSlot {
            player_id: 7,
            slot: EquipmentSlot::RightHand,
        })
    );
    assert_eq!(
        world.execute_generic_inventory_move(
            7,
            GenericInventoryMove {
                source_kind: GenericMoveSourceKind::Equipment {
                    slot: EquipmentSlot::RightHand,
                },
                source_count: None,
                target: GenericMoveTargetKind::Equipment {
                    slot: EquipmentSlot::RightHand,
                    allow_swap: true,
                },
            },
        ),
        Err(CoreError::SameEquipmentSlotTransfer {
            player_id: 7,
            slot: EquipmentSlot::RightHand,
        })
    );
    assert_eq!(
        world.execute_generic_inventory_move(
            99,
            GenericInventoryMove {
                source_kind: GenericMoveSourceKind::Container {
                    container_id: 0,
                    index: 0,
                },
                source_count: None,
                target: GenericMoveTargetKind::Container { container_id: 1 },
            },
        ),
        Err(CoreError::UnknownPlayer(99))
    );
    assert!(matches!(
        world.execute_generic_inventory_move(
            7,
            GenericInventoryMove {
                source_kind: GenericMoveSourceKind::Container {
                    container_id: 0,
                    index: 0,
                },
                source_count: Some(0),
                target: GenericMoveTargetKind::Container { container_id: 1 },
            },
        ),
        Err(CoreError::InvalidItemTransferCount { .. })
    ));
    assert_eq!(world.revision(), revision_before_rejection);
    assert_eq!(
        world
            .player_containers(7)
            .unwrap()
            .container(0)
            .unwrap()
            .items
            .item(0),
        Some(&ItemInstance::new(2544, 50).unwrap())
    );
}

#[test]
fn authoritative_container_stack_transfer_merges_between_distinct_containers() {
    let gold = 2148;
    let mut world = WorldState::default();
    world.add_player(player()).unwrap();
    let mut source =
        PlayerContainer::new(0, ItemInstance::new(1988, 1).unwrap(), "Backpack", false, 2)
            .unwrap();
    source
        .items
        .insert(ItemInstance::new(gold, 40).unwrap())
        .unwrap();
    let mut destination =
        PlayerContainer::new(1, ItemInstance::new(1988, 1).unwrap(), "Bag", false, 2).unwrap();
    destination
        .items
        .insert(ItemInstance::new(gold, 20).unwrap())
        .unwrap();
    let mut containers = PlayerContainers::default();
    containers.insert(source).unwrap();
    containers.insert(destination).unwrap();
    world.replace_player_containers(7, containers).unwrap();

    assert_eq!(
        world
            .move_container_stack_to_container(7, 0, 0, 1, 15)
            .unwrap(),
        PlayerContainerStackToContainerOutcome {
            player_id: 7,
            from_container_id: 0,
            item_index: 0,
            to_container_id: 1,
            destination_index: 0,
            moved_item: ItemInstance::new(gold, 15).unwrap(),
            source_remaining_count: Some(25),
            destination_count: 35,
        }
    );
    assert_eq!(
        world
            .player_containers(7)
            .unwrap()
            .container(0)
            .unwrap()
            .items
            .item(0)
            .unwrap()
            .count,
        25
    );
    assert_eq!(
        world
            .player_containers(7)
            .unwrap()
            .container(1)
            .unwrap()
            .items
            .item(0)
            .unwrap()
            .count,
        35
    );
}

#[test]
fn authoritative_container_to_occupied_equipment_swap_is_atomic_and_bounded() {
    let mut world = WorldState::default();
    world.add_player(player()).unwrap();
    let sword = ItemInstance::new(2376, 1).unwrap();
    let shield = ItemInstance::new(2512, 1).unwrap();
    let mut equipment = PlayerEquipment::default();
    equipment.equip(EquipmentSlot::RightHand, shield.clone());
    world.replace_player_equipment(7, equipment).unwrap();
    let mut backpack =
        PlayerContainer::new(0, ItemInstance::new(1988, 1).unwrap(), "Backpack", false, 1)
            .unwrap();
    backpack.items.insert(sword.clone()).unwrap();
    let mut containers = PlayerContainers::default();
    containers.insert(backpack).unwrap();
    world.replace_player_containers(7, containers).unwrap();
    let revision_before_swap = world.revision();

    let outcome = world
        .swap_container_item_with_equipment(7, 0, 0, EquipmentSlot::RightHand)
        .unwrap();
    assert_eq!(outcome.container_item, sword);
    assert_eq!(outcome.equipped_item, shield);
    assert_eq!(
        world
            .player_equipment(7)
            .unwrap()
            .item(EquipmentSlot::RightHand),
        Some(&sword)
    );
    assert_eq!(
        world
            .player_containers(7)
            .unwrap()
            .container(0)
            .unwrap()
            .items
            .item(0),
        Some(&shield)
    );
    assert_eq!(world.revision(), revision_before_swap + 1);

    let revision_before_invalid_source = world.revision();
    assert_eq!(
        world.swap_container_item_with_equipment(7, 0, 1, EquipmentSlot::RightHand),
        Err(CoreError::UnknownPlayerContainerItem {
            player_id: 7,
            container_id: 0,
            item_index: 1,
        })
    );
    assert_eq!(world.revision(), revision_before_invalid_source);
    assert_eq!(
        world
            .player_equipment(7)
            .unwrap()
            .item(EquipmentSlot::RightHand),
        Some(&sword)
    );
}

#[test]
fn authoritative_equipment_slot_swap_is_atomic_and_bounded() {
    let mut world = WorldState::default();
    world.add_player(player()).unwrap();
    let sword = ItemInstance::new(2376, 1).unwrap();
    let shield = ItemInstance::new(2512, 1).unwrap();
    let mut equipment = PlayerEquipment::default();
    equipment.equip(EquipmentSlot::RightHand, sword.clone());
    equipment.equip(EquipmentSlot::LeftHand, shield.clone());
    world.replace_player_equipment(7, equipment).unwrap();
    let revision_before_swap = world.revision();

    let outcome = world
        .swap_equipment_items(7, EquipmentSlot::RightHand, EquipmentSlot::LeftHand)
        .unwrap();

    assert_eq!(outcome.from_item, sword);
    assert_eq!(outcome.to_item, shield);
    assert_eq!(
        world
            .player_equipment(7)
            .unwrap()
            .item(EquipmentSlot::RightHand),
        Some(&shield)
    );
    assert_eq!(
        world
            .player_equipment(7)
            .unwrap()
            .item(EquipmentSlot::LeftHand),
        Some(&sword)
    );
    assert_eq!(world.revision(), revision_before_swap + 1);

    let revision_before_rejections = world.revision();
    assert_eq!(
        world.swap_equipment_items(7, EquipmentSlot::RightHand, EquipmentSlot::RightHand),
        Err(CoreError::SameEquipmentSlotTransfer {
            player_id: 7,
            slot: EquipmentSlot::RightHand,
        })
    );
    assert_eq!(
        world.swap_equipment_items(7, EquipmentSlot::Head, EquipmentSlot::RightHand),
        Err(CoreError::EmptyEquipmentSlot {
            player_id: 7,
            slot: EquipmentSlot::Head,
        })
    );
    assert_eq!(world.revision(), revision_before_rejections);
    assert_eq!(
        world
            .player_equipment(7)
            .unwrap()
            .item(EquipmentSlot::RightHand),
        Some(&shield)
    );
    assert_eq!(
        world
            .player_equipment(7)
            .unwrap()
            .item(EquipmentSlot::LeftHand),
        Some(&sword)
    );
}

#[test]
fn authoritative_item_stack_transfers_split_merge_and_reject_invalid_state() {
    let gold = 2148;
    let mut world = WorldState::default();
    world.add_player(player()).unwrap();
    let mut equipment = PlayerEquipment::default();
    equipment.equip(
        EquipmentSlot::RightHand,
        ItemInstance::new(gold, 80).unwrap(),
    );
    world.replace_player_equipment(7, equipment).unwrap();
    let mut backpack =
        PlayerContainer::new(0, ItemInstance::new(1988, 1).unwrap(), "Backpack", false, 2)
            .unwrap();
    backpack
        .items
        .insert(ItemInstance::new(gold, 10).unwrap())
        .unwrap();
    let mut containers = PlayerContainers::default();
    containers.insert(backpack).unwrap();
    world.replace_player_containers(7, containers).unwrap();

    assert_eq!(
        world
            .move_equipment_stack_to_container(7, EquipmentSlot::RightHand, 0, 15)
            .unwrap(),
        PlayerEquipmentStackToContainerOutcome {
            player_id: 7,
            from_slot: EquipmentSlot::RightHand,
            container_id: 0,
            destination_index: 0,
            moved_item: ItemInstance::new(gold, 15).unwrap(),
            source_remaining_count: Some(65),
            destination_count: 25,
        }
    );
    assert_eq!(
        world
            .player_equipment(7)
            .unwrap()
            .item(EquipmentSlot::RightHand)
            .unwrap()
            .count,
        65
    );
    assert_eq!(
        world
            .player_containers(7)
            .unwrap()
            .container(0)
            .unwrap()
            .items
            .item(0)
            .unwrap()
            .count,
        25
    );

    let revision_before_invalid_count = world.revision();
    assert_eq!(
        world.move_equipment_stack_to_container(7, EquipmentSlot::RightHand, 0, 0),
        Err(CoreError::InvalidItemTransferCount {
            requested: 0,
            available: 65,
        })
    );
    assert_eq!(world.revision(), revision_before_invalid_count);

    let mut equipment = PlayerEquipment::default();
    equipment.equip(
        EquipmentSlot::LeftHand,
        ItemInstance::new(gold, 70).unwrap(),
    );
    world.replace_player_equipment(7, equipment).unwrap();
    let mut backpack =
        PlayerContainer::new(0, ItemInstance::new(1988, 1).unwrap(), "Backpack", false, 2)
            .unwrap();
    backpack
        .items
        .insert(ItemInstance::new(gold, 20).unwrap())
        .unwrap();
    let mut containers = PlayerContainers::default();
    containers.insert(backpack).unwrap();
    world.replace_player_containers(7, containers).unwrap();

    assert_eq!(
        world
            .move_container_stack_to_equipment(7, 0, 0, EquipmentSlot::LeftHand, 15)
            .unwrap(),
        PlayerContainerStackToEquipmentOutcome {
            player_id: 7,
            container_id: 0,
            item_index: 0,
            to_slot: EquipmentSlot::LeftHand,
            moved_item: ItemInstance::new(gold, 15).unwrap(),
            source_remaining_count: Some(5),
            destination_count: 85,
        }
    );
    assert_eq!(
        world
            .player_equipment(7)
            .unwrap()
            .item(EquipmentSlot::LeftHand)
            .unwrap()
            .count,
        85
    );
    assert_eq!(
        world
            .player_containers(7)
            .unwrap()
            .container(0)
            .unwrap()
            .items
            .item(0)
            .unwrap()
            .count,
        5
    );

    let revision_before_incompatible = world.revision();
    let equipment_before_incompatible = world.player_equipment(7).unwrap().clone();
    let containers_before_incompatible = world.player_containers(7).unwrap().clone();
    let mut equipment = equipment_before_incompatible.clone();
    equipment.equip(EquipmentSlot::LeftHand, ItemInstance::new(2376, 1).unwrap());
    world.replace_player_equipment(7, equipment).unwrap();
    assert_eq!(
        world.move_container_stack_to_equipment(7, 0, 0, EquipmentSlot::LeftHand, 5),
        Err(CoreError::IncompatibleItemStacks)
    );
    assert_eq!(
        world.player_containers(7).unwrap(),
        &containers_before_incompatible
    );
    assert_eq!(world.revision(), revision_before_incompatible + 1);

    let mut equipment = PlayerEquipment::default();
    equipment.equip(
        EquipmentSlot::LeftHand,
        ItemInstance::new(gold, 96).unwrap(),
    );
    world.replace_player_equipment(7, equipment).unwrap();
    let revision_before_overflow = world.revision();
    assert_eq!(
        world.move_container_stack_to_equipment(7, 0, 0, EquipmentSlot::LeftHand, 5),
        Err(CoreError::ItemStackCountOverflow {
            existing: 96,
            incoming: 5,
        })
    );
    assert_eq!(world.revision(), revision_before_overflow);
    assert_eq!(
        world
            .player_containers(7)
            .unwrap()
            .container(0)
            .unwrap()
            .items
            .item(0)
            .unwrap()
            .count,
        5
    );
}

#[test]
fn authoritative_player_containers_are_bounded_and_replace_only_when_changed() {
    let backpack = ItemInstance::new(1988, 1).unwrap();
    let mut container = PlayerContainer::new(0, backpack, "Backpack", false, 2).unwrap();
    container
        .items
        .insert(ItemInstance::new(2376, 1).unwrap())
        .unwrap();
    let mut containers = PlayerContainers::default();
    assert_eq!(containers.insert(container.clone()).unwrap(), None);
    assert_eq!(containers.container(0), Some(&container));

    let mut world = WorldState::default();
    world.add_player(player()).unwrap();
    assert!(world.player_containers(7).unwrap().is_empty());
    assert!(world
        .replace_player_containers(7, containers.clone())
        .unwrap());
    assert_eq!(world.revision(), 2);
    assert_eq!(
        world.player_containers(7).unwrap().container(0),
        Some(&container)
    );
    assert!(!world.replace_player_containers(7, containers).unwrap());
    assert_eq!(world.revision(), 2);

    assert_eq!(
        PlayerContainer::new(
            0,
            ItemInstance::new(1988, 1).unwrap(),
            &"x".repeat(MAX_PLAYER_CONTAINER_NAME_BYTES + 1),
            false,
            1,
        ),
        Err(CoreError::InvalidContainerName(
            MAX_PLAYER_CONTAINER_NAME_BYTES + 1
        ))
    );

    world.remove_player(7).unwrap();
    assert_eq!(world.player_containers(7), Err(CoreError::UnknownPlayer(7)));
}

#[test]
fn movement_rejects_teleporting() {
    let mut world = WorldState::default();
    world.add_player(player()).unwrap();
    assert!(world
        .move_player(
            7,
            Position {
                x: 102,
                y: 100,
                z: 7
            }
        )
        .is_err());
    world
        .move_player(
            7,
            Position {
                x: 101,
                y: 100,
                z: 7,
            },
        )
        .unwrap();
    assert_eq!(
        world
            .teleport_player(
                7,
                Position {
                    x: 250,
                    y: 300,
                    z: 7,
                },
            )
            .unwrap(),
        (
            Position {
                x: 101,
                y: 100,
                z: 7,
            },
            Position {
                x: 250,
                y: 300,
                z: 7,
            },
        )
    );
    assert_eq!(
        world.player(7).unwrap().position,
        Position {
            x: 250,
            y: 300,
            z: 7,
        }
    );
}

#[test]
fn world_revision_tracks_accepted_authoritative_mutations_only() {
    let mut world = WorldState::default();
    assert_eq!(world.revision(), 0);

    world.advance_tick();
    assert_eq!(world.revision(), 1);

    world.add_player(player()).unwrap();
    assert_eq!(world.revision(), 2);

    let unchanged_vitals = world.player_vitals(7).unwrap();
    world.update_player_vitals(7, unchanged_vitals).unwrap();
    assert_eq!(world.revision(), 2);

    let mut changed_vitals = unchanged_vitals;
    changed_vitals.health -= 1;
    world.update_player_vitals(7, changed_vitals).unwrap();
    assert_eq!(world.revision(), 3);

    assert!(world
        .move_player(
            7,
            Position {
                x: 102,
                y: 100,
                z: 7,
            },
        )
        .is_err());
    assert_eq!(world.revision(), 3);

    world
        .move_player_cardinal(7, CardinalDirection::East)
        .unwrap();
    assert_eq!(world.revision(), 4);

    world.set_player_target(7, None).unwrap();
    assert_eq!(world.revision(), 4);

    world.remove_player(7).unwrap();
    assert_eq!(world.revision(), 5);
}

#[test]
fn authoritative_world_clock_batches_elapsed_seconds_without_zero_tick_mutation() {
    let mut world = WorldState::default();
    assert_eq!(world.advance_ticks(0), 0);
    assert_eq!(world.tick(), 0);
    assert_eq!(world.revision(), 0);

    assert_eq!(world.advance_ticks(3), 3);
    assert_eq!(world.tick(), 3);
    assert_eq!(world.revision(), 1);

    assert_eq!(world.advance_tick(), 4);
    assert_eq!(world.revision(), 2);
}

#[test]
fn shared_world_player_registration_is_exclusive_and_releases_on_removal() {
    let mut world = WorldState::default();
    let first = player();
    world.add_player(first.clone()).unwrap();
    let second = Player {
        id: 8,
        account_id: 3,
        name: "Druid".into(),
        ..first.clone()
    };
    assert_eq!(
        world.add_player(second.clone()),
        Err(CoreError::PlayerOccupiesPosition(first.position))
    );
    assert_eq!(world.remove_player(first.id), Ok(first));
    world.add_player(second).unwrap();
    assert!(world.player(8).is_some());
    assert_eq!(
        world.player_render_snapshots(),
        vec![PlayerRenderSnapshot {
            id: 8,
            name: "Druid".into(),
            position: Position {
                x: 100,
                y: 100,
                z: 7,
            },
            level: 1,
            health_percent: 100,
        }]
    );
    world.remove_player(8).unwrap();
    assert!(world.player_render_snapshots().is_empty());
    assert_eq!(world.remove_player(7), Err(CoreError::UnknownPlayer(7)));
}

#[test]
fn player_interaction_intent_is_bounded_and_clears_when_a_selected_player_leaves() {
    let mut world = WorldState::default();
    let source = player();
    let selected = Player {
        id: 8,
        account_id: 3,
        name: "Druid".into(),
        position: Position {
            x: 101,
            y: 100,
            z: 7,
        },
        ..source.clone()
    };
    world.add_player(source.clone()).unwrap();
    world.add_player(selected.clone()).unwrap();

    assert_eq!(
        world.player_interaction_intent(source.id),
        Ok(PlayerInteractionIntent::default())
    );
    assert_eq!(
        world.set_player_target(source.id, Some(selected.id)),
        Ok(PlayerInteractionIntent {
            target_player_id: Some(selected.id),
            target_static_creature_id: None,
            follow_player_id: None,
        })
    );
    assert_eq!(
        world.set_player_follow(source.id, Some(selected.id)),
        Ok(PlayerInteractionIntent {
            target_player_id: Some(selected.id),
            target_static_creature_id: None,
            follow_player_id: Some(selected.id),
        })
    );
    assert_eq!(
        world.set_player_target(source.id, Some(source.id)),
        Err(CoreError::SelfInteractionNotAllowed(source.id))
    );
    assert_eq!(
        world.set_player_follow(source.id, Some(9)),
        Err(CoreError::UnknownPlayer(9))
    );

    world
        .hydrate_player_respawn_state(
            source.id,
            PlayerRespawnState {
                dead: true,
                respawn_at: Some(Position {
                    x: 110,
                    y: 120,
                    z: 7,
                }),
                death_time: Some(0),
                loss_applied: false,
            },
        )
        .unwrap();
    let dead_revision = world.revision();
    assert_eq!(
        world.set_player_target(source.id, Some(selected.id)),
        Err(CoreError::PlayerIsDead(source.id))
    );
    assert_eq!(
        world.set_player_follow(source.id, Some(selected.id)),
        Err(CoreError::PlayerIsDead(source.id))
    );
    assert_eq!(world.revision(), dead_revision);
    assert!(world.set_player_target(source.id, None).is_ok());

    world.remove_player(selected.id).unwrap();
    assert_eq!(
        world.player_interaction_intent(source.id),
        Ok(PlayerInteractionIntent::default())
    );
    assert_eq!(
        world.set_player_target(source.id, None),
        Ok(PlayerInteractionIntent::default())
    );
}

#[test]
fn player_follow_step_is_single_deterministic_and_does_not_route_around_occupancy() {
    let mut source = player();
    source.position = Position {
        x: 100,
        y: 100,
        z: 7,
    };
    let target = Player {
        id: 8,
        account_id: 3,
        name: "Druid".into(),
        position: Position {
            x: 103,
            y: 100,
            z: 7,
        },
        ..source.clone()
    };
    let mut map = WorldMap::new("player-follow", source.position);
    for x in 100..=103 {
        map.set_tile(
            Position { x, y: 100, z: 7 },
            WorldMapTile {
                ground_thing_id: 102,
                walkable: true,
            },
        )
        .unwrap();
    }
    let mut world = WorldState::default();
    world.add_player(source.clone()).unwrap();
    world.add_player(target.clone()).unwrap();
    world.set_player_follow(source.id, Some(target.id)).unwrap();

    assert_eq!(
        world.follow_player_targets_once(&map).unwrap(),
        BTreeSet::from([source.id])
    );
    assert_eq!(
        world.player(source.id).unwrap().position,
        Position {
            x: 101,
            y: 100,
            z: 7,
        }
    );

    let blocker = Player {
        id: 9,
        account_id: 4,
        name: "Blocker".into(),
        position: Position {
            x: 102,
            y: 100,
            z: 7,
        },
        ..source
    };
    world.add_player(blocker).unwrap();
    assert!(world.follow_player_targets_once(&map).unwrap().is_empty());
    assert_eq!(
        world.player(7).unwrap().position,
        Position {
            x: 101,
            y: 100,
            z: 7,
        }
    );
}

#[test]
fn player_death_clears_other_players_target_and_follow_intents() {
    let mut world = WorldState::default();
    let source = player();
    let selected = Player {
        id: 8,
        account_id: 3,
        name: "Druid".into(),
        position: Position {
            x: 101,
            y: 100,
            z: 7,
        },
        ..source.clone()
    };
    world.add_player(source.clone()).unwrap();
    world.add_player(selected.clone()).unwrap();
    world
        .set_player_target(source.id, Some(selected.id))
        .unwrap();
    world
        .set_player_follow(source.id, Some(selected.id))
        .unwrap();

    let temple = Position {
        x: 110,
        y: 120,
        z: 7,
    };
    let mut map = WorldMap::new("dead-interaction-target", temple);
    map.set_town(WorldMapTown {
        id: 42,
        name: "Thais".to_owned(),
        temple_position: temple,
    })
    .unwrap();

    world.apply_player_death(selected.id, 42, &map).unwrap();
    assert!(world.player_respawn_state(selected.id).unwrap().dead);
    assert_eq!(
        world.player_interaction_intent(source.id),
        Ok(PlayerInteractionIntent::default())
    );
}

#[test]
fn static_creature_target_intent_requires_an_active_authoritative_entity() {
    let source = player();
    let creature_id = 0x4000_0001;
    let creature = FeTfsStaticEntity {
        id: creature_id,
        name: "Rat".into(),
        name_description: String::new(),
        position: Position {
            x: 101,
            y: 100,
            z: 7,
        },
        look_type: 21,
        head: 0,
        body: 0,
        legs: 0,
        feet: 0,
        addons: 0,
        speed: 134,
        health_percent: 100,
        direction: 2,
    };
    let mut world = WorldState::default();
    world
        .install_static_creatures(&FeTfsStaticSpawnCollection::new(vec![creature]).unwrap())
        .unwrap();
    world.add_player(source.clone()).unwrap();
    assert_eq!(
        world.set_player_static_target(source.id, Some(creature_id)),
        Ok(PlayerInteractionIntent {
            target_player_id: None,
            target_static_creature_id: Some(creature_id),
            follow_player_id: None,
        })
    );
    assert_eq!(
        world.set_player_target(source.id, None),
        Ok(PlayerInteractionIntent::default())
    );
    world
        .set_player_static_target(source.id, Some(creature_id))
        .unwrap();
    assert!(world.deactivate_static_creature(creature_id).unwrap());
    assert_eq!(
        world.player_interaction_intent(source.id),
        Ok(PlayerInteractionIntent::default())
    );
    assert_eq!(
        world.set_player_static_target(source.id, Some(creature_id)),
        Err(CoreError::InactiveStaticCreature(creature_id))
    );
    assert_eq!(
        world.set_player_static_target(source.id, Some(creature_id + 1)),
        Err(CoreError::UnknownStaticCreature(creature_id + 1))
    );
}

#[test]
fn static_creature_display_health_is_bounded_runtime_state_without_combat_behavior() {
    let creature_id = 0x4000_0001;
    let creature = FeTfsStaticEntity {
        id: creature_id,
        name: "Rat".into(),
        name_description: String::new(),
        position: Position {
            x: 101,
            y: 100,
            z: 7,
        },
        look_type: 21,
        head: 0,
        body: 0,
        legs: 0,
        feet: 0,
        addons: 0,
        speed: 134,
        health_percent: 75,
        direction: 2,
    };
    let mut invalid_creature = creature.clone();
    invalid_creature.health_percent = 101;
    assert_eq!(
        FeTfsStaticSpawnCollection::new(vec![invalid_creature]),
        Err(CoreError::InvalidStaticCreatureHealthPercent(101))
    );

    let mut world = WorldState::default();
    world
        .install_static_creatures(&FeTfsStaticSpawnCollection::new(vec![creature]).unwrap())
        .unwrap();
    assert_eq!(world.static_creature_health_percent(creature_id), Ok(75));
    let revision = world.revision();
    assert!(world
        .set_static_creature_health_percent(creature_id, 40)
        .unwrap());
    assert_eq!(world.static_creature_health_percent(creature_id), Ok(40));
    assert_eq!(world.revision(), revision + 1);
    assert_eq!(
        world.active_static_spawn_collection().entities[0].health_percent,
        40
    );
    assert!(!world
        .set_static_creature_health_percent(creature_id, 40)
        .unwrap());
    assert_eq!(world.revision(), revision + 1);
    assert_eq!(
        world.set_static_creature_health_percent(creature_id, 101),
        Err(CoreError::InvalidStaticCreatureHealthPercent(101))
    );
    assert!(world
        .set_static_creature_health_percent(creature_id, 0)
        .unwrap());
    assert!(world.static_creature_lifecycle(creature_id).unwrap().active);
    assert_eq!(world.static_creature_health_percent(creature_id), Ok(0));
    assert!(world.deactivate_static_creature(creature_id).unwrap());
    assert_eq!(
        world.set_static_creature_health_percent(creature_id, 1),
        Err(CoreError::InactiveStaticCreature(creature_id))
    );
    assert_eq!(world.reset_static_creatures().reactivated, 1);
    assert_eq!(world.static_creature_health_percent(creature_id), Ok(75));
}

#[test]
fn static_creature_melee_uses_percentage_damage_and_deactivates_only_on_a_real_zero_hit() {
    let attacker = player();
    let creature_id = 0x4000_0001;
    let creature = FeTfsStaticEntity {
        id: creature_id,
        name: "Rat".into(),
        name_description: String::new(),
        position: Position {
            x: 101,
            y: 100,
            z: 7,
        },
        look_type: 21,
        head: 0,
        body: 0,
        legs: 0,
        feet: 0,
        addons: 0,
        speed: 134,
        health_percent: 15,
        direction: 2,
    };
    let mut world = WorldState::default();
    world
        .install_static_creatures(&FeTfsStaticSpawnCollection::new(vec![creature]).unwrap())
        .unwrap();
    world.add_player(attacker.clone()).unwrap();
    assert_eq!(
        world.apply_static_creature_melee_damage(attacker.id, creature_id, 0),
        Err(CoreError::InvalidCombatEvent)
    );
    world
        .set_static_creature_health_percent(creature_id, 0)
        .unwrap();
    let no_op = world
        .apply_static_creature_melee_damage(attacker.id, creature_id, 10)
        .unwrap();
    assert_eq!(no_op.applied_damage, 0);
    assert!(!no_op.deactivated);
    assert!(world.static_creature_lifecycle(creature_id).unwrap().active);

    world
        .set_static_creature_health_percent(creature_id, 15)
        .unwrap();
    world
        .set_player_static_target(attacker.id, Some(creature_id))
        .unwrap();
    let first = world
        .apply_static_creature_melee_damage(attacker.id, creature_id, 10)
        .unwrap();
    assert_eq!(first.applied_damage, 10);
    assert_eq!(first.remaining_health_percent, 5);
    assert!(!first.deactivated);
    assert_eq!(
        world
            .player_combat_cooldown(attacker.id)
            .unwrap()
            .next_attack_tick,
        1
    );
    assert_eq!(
        world.apply_static_creature_melee_damage(attacker.id, creature_id, 10),
        Err(CoreError::CombatCooldownActive {
            attacker_id: attacker.id,
            current_tick: 0,
            next_attack_tick: 1,
        })
    );
    assert_eq!(world.static_creature_health_percent(creature_id), Ok(5));
    world.advance_tick();
    let final_hit = world
        .apply_static_creature_melee_damage(attacker.id, creature_id, 10)
        .unwrap();
    assert_eq!(final_hit.applied_damage, 5);
    assert_eq!(final_hit.remaining_health_percent, 0);
    assert!(final_hit.deactivated);
    assert!(!world.static_creature_lifecycle(creature_id).unwrap().active);
    assert_eq!(
        world.player_interaction_intent(attacker.id),
        Ok(PlayerInteractionIntent::default())
    );

    world.reset_static_creatures();
    let mut distant = attacker;
    distant.id = 8;
    distant.position.x = 103;
    world.add_player(distant).unwrap();
    assert_eq!(
        world.apply_static_creature_melee_damage(8, creature_id, 1),
        Err(CoreError::StaticCreatureCombatOutOfRange {
            attacker_id: 8,
            target_id: creature_id,
        })
    );
}

#[test]
fn authoritative_map_item_use_is_bounded_side_effect_free_and_position_validated() {
    let mut world = WorldState::default();
    world.add_player(player()).unwrap();
    let spawn = player().position;
    let adjacent = Position {
        x: spawn.x + 1,
        y: spawn.y,
        z: spawn.z,
    };
    let far = Position {
        x: spawn.x + 2,
        y: spawn.y,
        z: spawn.z,
    };
    let mut map = WorldMap::new("item-use", spawn);
    for position in [spawn, adjacent, far] {
        map.set_tile(
            position,
            WorldMapTile {
                ground_thing_id: 102,
                walkable: true,
            },
        )
        .unwrap();
    }
    map.set_tile_items(
        spawn,
        vec![WorldMapItem {
            server_id: 1945,
            client_thing_id: Some(1945),
            count: 1,
            action_id: Some(7),
            unique_id: Some(42),
            text: Some("Read me".into()),
            description: None,
            teleport_destination: Some(far),
            duration: None,
            charges: Some(3),
            children: Vec::new(),
        }],
    )
    .unwrap();
    map.set_tile_items(
        adjacent,
        vec![WorldMapItem {
            server_id: 2376,
            client_thing_id: Some(2376),
            count: 2,
            action_id: None,
            unique_id: None,
            text: None,
            description: None,
            teleport_destination: None,
            duration: None,
            charges: None,
            children: Vec::new(),
        }],
    )
    .unwrap();
    let revision = world.revision();
    assert_eq!(
        world
            .validate_player_item_use(
                &map,
                PlayerItemUseIntent::new(7, spawn, 0, 1945).unwrap(),
            )
            .unwrap(),
        PlayerItemUseOutcome {
            player_id: 7,
            position: spawn,
            stack_index: 0,
            server_id: 1945,
            count: 1,
            action_id: Some(7),
            unique_id: Some(42),
            has_text: true,
            charges: Some(3),
            teleport_destination: Some(far),
        }
    );
    assert_eq!(
        world
            .validate_player_item_use(
                &map,
                PlayerItemUseIntent::new(7, adjacent, 0, 2376).unwrap(),
            )
            .unwrap()
            .count,
        2
    );
    assert_eq!(
        world
            .validate_player_item_use_ex(
                &map,
                PlayerItemUseExIntent::new(7, spawn, 0, 1945, adjacent, 0, 2376).unwrap(),
            )
            .unwrap(),
        PlayerItemUseExOutcome {
            source: PlayerItemUseOutcome {
                player_id: 7,
                position: spawn,
                stack_index: 0,
                server_id: 1945,
                count: 1,
                action_id: Some(7),
                unique_id: Some(42),
                has_text: true,
                charges: Some(3),
                teleport_destination: Some(far),
            },
            target: PlayerItemUseOutcome {
                player_id: 7,
                position: adjacent,
                stack_index: 0,
                server_id: 2376,
                count: 2,
                action_id: None,
                unique_id: None,
                has_text: false,
                charges: None,
                teleport_destination: None,
            },
        }
    );
    assert_eq!(
        PlayerItemUseExIntent::new(7, spawn, 0, 1945, adjacent, 0, 0),
        Err(CoreError::InvalidItemUseIntent)
    );
    assert_eq!(
        world.validate_player_item_use_ex(
            &map,
            PlayerItemUseExIntent::new(7, spawn, 0, 1945, far, 0, 2376).unwrap(),
        ),
        Err(CoreError::ItemUseOutOfRange {
            player_id: 7,
            from: spawn,
            to: far,
        })
    );
    assert_eq!(world.revision(), revision);
    assert_eq!(
        PlayerItemUseIntent::new(7, adjacent, 0, 0),
        Err(CoreError::InvalidItemUseIntent)
    );
    assert_eq!(
        world.validate_player_item_use(
            &map,
            PlayerItemUseIntent::new(7, far, 0, 2376).unwrap(),
        ),
        Err(CoreError::ItemUseOutOfRange {
            player_id: 7,
            from: spawn,
            to: far,
        })
    );
    let missing = Position {
        x: spawn.x,
        y: spawn.y + 1,
        z: spawn.z,
    };
    assert_eq!(
        world.validate_player_item_use(
            &map,
            PlayerItemUseIntent::new(7, missing, 0, 2376).unwrap(),
        ),
        Err(CoreError::MissingMapTile(missing))
    );
    assert_eq!(
        world.validate_player_item_use(
            &map,
            PlayerItemUseIntent::new(7, adjacent, 1, 2376).unwrap(),
        ),
        Err(CoreError::UnknownMapItem {
            position: adjacent,
            stack_index: 1,
            expected_server_id: 2376,
        })
    );
}

#[test]
fn authoritative_map_item_use_creature_is_bounded_side_effect_free_and_target_validated() {
    let mut world = WorldState::default();
    let source_player = player();
    let spawn = source_player.position;
    let adjacent = Position {
        x: spawn.x + 1,
        y: spawn.y,
        z: spawn.z,
    };
    let far = Position {
        x: spawn.x + 2,
        y: spawn.y,
        z: spawn.z,
    };
    world.add_player(source_player).unwrap();
    world
        .add_player(Player {
            id: 8,
            account_id: 8,
            name: "Druid".into(),
            position: Position {
                x: spawn.x,
                y: spawn.y + 1,
                z: spawn.z,
            },
            level: 8,
            experience: 0,
            skill_points: 0,
        })
        .unwrap();
    let near_static_id = 0x4000_0001;
    let far_static_id = 0x4000_0002;
    world
        .install_static_creatures(
            &FeTfsStaticSpawnCollection::new(vec![
                FeTfsStaticEntity {
                    id: near_static_id,
                    name: "Rat".into(),
                    name_description: String::new(),
                    position: adjacent,
                    look_type: 21,
                    head: 0,
                    body: 0,
                    legs: 0,
                    feet: 0,
                    addons: 0,
                    speed: 134,
                    health_percent: 75,
                    direction: 2,
                },
                FeTfsStaticEntity {
                    id: far_static_id,
                    name: "Snake".into(),
                    name_description: String::new(),
                    position: far,
                    look_type: 21,
                    head: 0,
                    body: 0,
                    legs: 0,
                    feet: 0,
                    addons: 0,
                    speed: 134,
                    health_percent: 100,
                    direction: 2,
                },
            ])
            .unwrap(),
        )
        .unwrap();
    let mut map = WorldMap::new("item-use-creature", spawn);
    map.set_tile(
        spawn,
        WorldMapTile {
            ground_thing_id: 102,
            walkable: true,
        },
    )
    .unwrap();
    map.set_tile_items(
        spawn,
        vec![WorldMapItem {
            server_id: 1945,
            client_thing_id: Some(1945),
            count: 1,
            action_id: Some(7),
            unique_id: None,
            text: None,
            description: None,
            teleport_destination: None,
            duration: None,
            charges: Some(3),
            children: Vec::new(),
        }],
    )
    .unwrap();
    let revision = world.revision();
    let source = PlayerItemUseIntent::new(7, spawn, 0, 1945).unwrap();
    let static_outcome = world
        .validate_player_item_use_creature(
            &map,
            PlayerItemUseCreatureIntent {
                source,
                target: PlayerItemUseCreatureTarget::StaticCreature(near_static_id),
            },
        )
        .unwrap();
    assert_eq!(static_outcome.source.server_id, 1945);
    assert_eq!(
        static_outcome.target,
        PlayerItemUseCreatureTargetOutcome::StaticCreature {
            creature_id: near_static_id,
            position: adjacent,
            health_percent: 75,
        }
    );
    assert_eq!(
        world
            .validate_player_item_use_creature(
                &map,
                PlayerItemUseCreatureIntent {
                    source,
                    target: PlayerItemUseCreatureTarget::Player(8),
                },
            )
            .unwrap()
            .target,
        PlayerItemUseCreatureTargetOutcome::Player {
            player_id: 8,
            position: Position {
                x: spawn.x,
                y: spawn.y + 1,
                z: spawn.z,
            },
        }
    );
    assert_eq!(
        world.validate_player_item_use_creature(
            &map,
            PlayerItemUseCreatureIntent {
                source,
                target: PlayerItemUseCreatureTarget::StaticCreature(999),
            },
        ),
        Err(CoreError::UnknownStaticCreature(999))
    );
    assert_eq!(
        world.validate_player_item_use_creature(
            &map,
            PlayerItemUseCreatureIntent {
                source,
                target: PlayerItemUseCreatureTarget::StaticCreature(far_static_id),
            },
        ),
        Err(CoreError::ItemUseOutOfRange {
            player_id: 7,
            from: spawn,
            to: far,
        })
    );
    assert_eq!(world.revision(), revision);
}

#[test]
fn empty_world_tick_viewport_and_cardinal_movement_are_deterministic() {
    let mut world = WorldState::default();
    world.add_player(player()).unwrap();
    assert_eq!(world.advance_tick(), 1);
    let (from, to) = world
        .move_player_cardinal(7, CardinalDirection::East)
        .unwrap();
    assert_eq!(from.x, 100);
    assert_eq!(to.x, 101);
    let viewport = world
        .empty_world_viewport(7, EmptyWorldManifest::default())
        .unwrap();
    assert_eq!(viewport.tick, 1);
    assert_eq!(viewport.center, to);
    assert_eq!(viewport.manifest.identifier, "fe.empty-world.v1");
}

#[test]
fn cardinal_movement_rejects_a_map_boundary() {
    let position = Position { x: 0, y: 0, z: 7 };
    assert!(matches!(
        position.step(CardinalDirection::North),
        Err(CoreError::MapBoundary { .. })
    ));
}

#[test]
fn experience_increases_level_deterministically() {
    let mut value = player();
    value.add_experience(900);
    assert_eq!(value.level, 5);
}

#[test]
fn classic_experience_thresholds_are_integer_bounded_and_monotonic() {
    assert_eq!(classic_experience_for_level(0), None);
    assert_eq!(classic_experience_for_level(1), Some(0));
    assert_eq!(classic_experience_for_level(2), Some(100));
    assert_eq!(classic_experience_for_level(5), Some(800));
    assert_eq!(classic_experience_for_level(8), Some(4_200));
    assert_eq!(level_for_experience(4_199), 7);
    assert_eq!(level_for_experience(4_200), 8);
    let maximum_representable = level_for_experience(u64::MAX);
    assert!(classic_experience_for_level(maximum_representable).is_some());
    if maximum_representable < u32::MAX {
        assert!(classic_experience_for_level(maximum_representable + 1).is_none());
    }
}

#[test]
fn authoritative_experience_awards_apply_validated_rate_and_level_stages() {
    let stages = vec![
        ExperienceAwardStage::new(1, 1, 2_000).unwrap(),
        ExperienceAwardStage::new(2, u32::MAX, 3_000).unwrap(),
    ];
    let policy = ExperienceAwardPolicy::new(5, stages).unwrap();
    let mut world = WorldState::default();
    world.add_player(player()).unwrap();
    let revision_before_award = world.revision();

    let first = world.award_player_experience(7, 100, &policy).unwrap();
    assert_eq!(first.raw_experience, 100);
    assert_eq!(first.awarded_experience, 1_000);
    assert_eq!(first.experience, 1_000);
    assert_eq!(first.level, 5);
    assert_eq!(first.gained_levels, 4);
    assert_eq!(first.vitals, PlayerVitals::default());
    assert_eq!(world.revision(), revision_before_award + 1);

    let second = world.award_player_experience(7, 100, &policy).unwrap();
    assert_eq!(second.awarded_experience, 1_500);
    assert_eq!(second.experience, 2_500);
    assert_eq!(second.level, 6);

    let disabled = ExperienceAwardPolicy::new(0, Vec::new()).unwrap();
    let revision_before_disabled = world.revision();
    let disabled_outcome = world.award_player_experience(7, 100, &disabled).unwrap();
    assert_eq!(disabled_outcome.awarded_experience, 0);
    assert_eq!(disabled_outcome.experience, 2_500);
    assert_eq!(world.revision(), revision_before_disabled);

    assert_eq!(
        ExperienceAwardPolicy::new(
            1,
            vec![
                ExperienceAwardStage::new(1, 10, 1_000).unwrap(),
                ExperienceAwardStage::new(10, u32::MAX, 1_000).unwrap(),
            ],
        ),
        Err(CoreError::InvalidExperienceAwardPolicy)
    );
}

#[test]
fn vocation_aware_experience_awards_apply_gains_only_for_real_level_increases() {
    let policy = ExperienceAwardPolicy::new(10, Vec::new()).unwrap();
    let initial_vitals = PlayerVitals {
        health: 50,
        max_health: 100,
        mana: 20,
        max_mana: 50,
        capacity: 500,
        magic_level: 4,
    };
    let gains = VocationLevelUpGains::new(15, 5, 25);
    let mut world = WorldState::default();
    world
        .add_player_with_vitals_and_progression(
            player(),
            initial_vitals,
            PlayerProgression {
                vocation: BaseVocation::Knight.id(),
                ..PlayerProgression::default()
            },
        )
        .unwrap();

    let no_award = world
        .award_player_experience_with_vocation_gains(
            7,
            100,
            &ExperienceAwardPolicy::new(0, Vec::new()).unwrap(),
            gains,
        )
        .unwrap();
    assert_eq!(no_award.gained_levels, 0);
    assert_eq!(no_award.vitals, initial_vitals);

    let advanced = world
        .award_player_experience_with_vocation_gains(7, 100, &policy, gains)
        .unwrap();
    assert_eq!(advanced.gained_levels, 4);
    assert_eq!(advanced.level, 5);
    assert_eq!(
        advanced.vitals,
        PlayerVitals {
            health: 110,
            max_health: 160,
            mana: 40,
            max_mana: 70,
            capacity: 600,
            magic_level: 4,
        }
    );
    assert_eq!(world.player_vitals(7).unwrap(), advanced.vitals);

    world
        .update_player_vitals(
            7,
            PlayerVitals {
                health: u16::MAX - 1,
                max_health: u16::MAX - 1,
                mana: u16::MAX - 1,
                max_mana: u16::MAX - 1,
                capacity: u16::MAX - 1,
                magic_level: 4,
            },
        )
        .unwrap();
    let saturated = world
        .award_player_experience_with_vocation_gains(
            7,
            u64::MAX,
            &ExperienceAwardPolicy::new(1, Vec::new()).unwrap(),
            gains,
        )
        .unwrap();
    assert!(saturated.gained_levels > 0);
    assert_eq!(saturated.vitals.health, u16::MAX);
    assert_eq!(saturated.vitals.max_health, u16::MAX);
    assert_eq!(saturated.vitals.mana, u16::MAX);
    assert_eq!(saturated.vitals.max_mana, u16::MAX);
    assert_eq!(saturated.vitals.capacity, u16::MAX);
}

#[test]
fn legacy_world_metadata_is_bounded_and_preserved() {
    let spawn = Position {
        x: 100,
        y: 100,
        z: 7,
    };
    let mut map = WorldMap::new("legacy", spawn);
    map.set_tile(
        spawn,
        WorldMapTile {
            ground_thing_id: 4526,
            walkable: true,
        },
    )
    .unwrap();
    map.set_source(WorldMapSource::Otbm(OtbmMapHeader {
        version: 2,
        width: 512,
        height: 512,
        item_major_version: 57,
        item_minor_version: 1098,
        description: Some("private operator map".into()),
        spawn_file: Some("legacy-spawn.xml".into()),
        house_file: Some("legacy-house.xml".into()),
    }));
    map.set_tile_items(
        spawn,
        vec![WorldMapItem {
            server_id: 4526,
            client_thing_id: Some(102),
            count: 1,
            action_id: None,
            unique_id: None,
            text: None,
            description: None,
            teleport_destination: None,
            duration: None,
            charges: None,
            children: Vec::new(),
        }],
    )
    .unwrap();
    map.set_tile_flags(spawn, 1);
    map.set_house_tile(spawn, 42).unwrap();
    map.set_town(WorldMapTown {
        id: 1,
        name: "Thais".into(),
        temple_position: spawn,
    })
    .unwrap();
    map.set_waypoint("temple", spawn).unwrap();

    assert_eq!(map.tile_items(spawn).unwrap()[0].server_id, 4526);
    assert_eq!(map.tile_flags(spawn), 1);
    assert_eq!(map.house_tile_id(spawn), Some(42));
    assert_eq!(map.towns()[0].name, "Thais");
    assert_eq!(map.town(1).unwrap().temple_position, spawn);
    assert_eq!(map.temple_position_for_town(1), Some(spawn));
    assert_eq!(map.temple_position_for_town(99), None);
    assert_eq!(map.waypoint("temple"), Some(spawn));
    assert!(map.validate().is_ok());
    assert!(map.set_waypoint("", spawn).is_err());
    assert!(map.set_house_tile(spawn, 0).is_err());
}




#[test]
fn legacy_tile_metadata_requires_an_existing_tile() {
    let spawn = Position {
        x: 100,
        y: 100,
        z: 7,
    };
    let missing = Position {
        x: 101,
        y: 100,
        z: 7,
    };
    let mut map = WorldMap::new("legacy", spawn);
    map.set_tile(
        spawn,
        WorldMapTile {
            ground_thing_id: 102,
            walkable: true,
        },
    )
    .unwrap();
    map.set_tile_items(missing, Vec::new()).unwrap();
    assert!(matches!(map.validate(), Err(CoreError::InvalidMap(_))));
}

#[test]
fn static_tfs_spawn_collection_is_bounded_and_position_addressable() {
    let position = Position {
        x: 100,
        y: 100,
        z: 7,
    };
    let collection = FeTfsStaticSpawnCollection::new(vec![FeTfsStaticEntity {
        id: 0x4000_0001,
        name: "Rat".into(),
        name_description: String::new(),
        position,
        look_type: 21,
        head: 0,
        body: 0,
        legs: 0,
        feet: 0,
        addons: 0,
        speed: 134,
        health_percent: 100,
        direction: 2,
    }])
    .unwrap();
    assert_eq!(collection.at(position).len(), 1);
    assert_eq!(
        FeTfsStaticSpawnCollection::new(vec![
            collection.entities[0].clone(),
            collection.entities[0].clone(),
        ]),
        Err(CoreError::DuplicateStaticSpawnId(0x4000_0001))
    );
}

#[test]
fn static_creatures_are_authoritative_occupants_without_runtime_behavior() {
    let position = Position {
        x: 101,
        y: 100,
        z: 7,
    };
    let creature = FeTfsStaticEntity {
        id: 0x4000_0001,
        name: "Rat".into(),
        name_description: String::new(),
        position,
        look_type: 21,
        head: 0,
        body: 0,
        legs: 0,
        feet: 0,
        addons: 0,
        speed: 134,
        health_percent: 100,
        direction: 2,
    };
    let collection = FeTfsStaticSpawnCollection::new(vec![creature.clone()]).unwrap();
    let mut world = WorldState::default();
    world.install_static_creatures(&collection).unwrap();
    assert_eq!(world.static_creature_count(), 1);
    assert_eq!(world.static_creature(creature.id), Some(&creature));
    assert!(world.is_static_creature_occupied(position));

    world.add_player(player()).unwrap();
    assert_eq!(
        world.move_player(
            7,
            Position {
                x: 101,
                y: 100,
                z: 7,
            },
        ),
        Err(CoreError::StaticCreatureOccupiesPosition(position))
    );
    assert_eq!(world.player(7).unwrap().position.x, 100);
    assert_eq!(world.static_creature(creature.id), Some(&creature));
}

#[test]
fn static_creature_reset_is_deterministic_and_defers_player_occupied_spawns() {
    let spawn_position = Position {
        x: 101,
        y: 100,
        z: 7,
    };
    let creature = FeTfsStaticEntity {
        id: 0x4000_0001,
        name: "Rat".into(),
        name_description: String::new(),
        position: spawn_position,
        look_type: 21,
        head: 0,
        body: 0,
        legs: 0,
        feet: 0,
        addons: 0,
        speed: 134,
        health_percent: 100,
        direction: 2,
    };
    let collection = FeTfsStaticSpawnCollection::with_respawn_intervals(
        vec![creature],
        BTreeMap::from([(0x4000_0001, 3)]),
    )
    .unwrap();
    let mut world = WorldState::default();
    world.install_static_creatures(&collection).unwrap();
    assert_eq!(
        world.static_creature_lifecycle(0x4000_0001),
        Some(StaticCreatureLifecycle {
            id: 0x4000_0001,
            spawn_position,
            position: spawn_position,
            active: true,
            health_percent: 100,
            activated_at_tick: 0,
            inactive_since_tick: None,
            reactivation_due_tick: None,
            respawn_interval_seconds: 3,
        })
    );
    assert!(world.deactivate_static_creature(0x4000_0001).unwrap());
    assert!(!world.deactivate_static_creature(0x4000_0001).unwrap());
    assert!(!world.is_static_creature_occupied(spawn_position));
    assert_eq!(world.active_static_creature_count(), 0);
    assert_eq!(
        world
            .static_creature_lifecycle(0x4000_0001)
            .unwrap()
            .inactive_since_tick,
        Some(0)
    );

    world.add_player(player()).unwrap();
    world
        .move_player_cardinal(7, CardinalDirection::East)
        .unwrap();
    world.advance_tick();
    let deferred = world.reset_static_creatures();
    assert_eq!(
        deferred,
        StaticCreatureResetSummary {
            reactivated: 0,
            deferred_by_player_occupancy: 1,
            deferred_by_static_creature_occupancy: 0,
        }
    );
    assert!(!world.is_static_creature_occupied(spawn_position));

    world
        .move_player_cardinal(7, CardinalDirection::West)
        .unwrap();
    world.advance_tick();
    assert_eq!(
        world.reset_static_creatures(),
        StaticCreatureResetSummary {
            reactivated: 1,
            deferred_by_player_occupancy: 0,
            deferred_by_static_creature_occupancy: 0,
        }
    );
    assert!(world.is_static_creature_occupied(spawn_position));
    assert_eq!(world.active_static_creature_count(), 1);
    assert_eq!(
        world
            .static_creature_lifecycle(0x4000_0001)
            .unwrap()
            .activated_at_tick,
        2
    );
    assert_eq!(
        world.deactivate_static_creature(0x4000_0002),
        Err(CoreError::UnknownStaticCreature(0x4000_0002))
    );
}

#[test]
fn static_creature_due_reactivation_uses_per_spawn_interval_and_occupancy() {
    let spawn_position = Position {
        x: 101,
        y: 100,
        z: 7,
    };
    let creature_id = 0x4000_0001;
    let creature = FeTfsStaticEntity {
        id: creature_id,
        name: "Rat".into(),
        name_description: String::new(),
        position: spawn_position,
        look_type: 21,
        head: 0,
        body: 0,
        legs: 0,
        feet: 0,
        addons: 0,
        speed: 134,
        health_percent: 100,
        direction: 2,
    };
    let collection = FeTfsStaticSpawnCollection::with_respawn_intervals(
        vec![creature],
        BTreeMap::from([(creature_id, 3)]),
    )
    .unwrap();
    let mut world = WorldState::default();
    world.install_static_creatures(&collection).unwrap();
    assert!(world.deactivate_static_creature(creature_id).unwrap());
    world.advance_ticks(2);
    assert_eq!(
        world.reactivate_due_static_creatures(),
        StaticCreatureResetSummary {
            reactivated: 0,
            deferred_by_player_occupancy: 0,
            deferred_by_static_creature_occupancy: 0,
        }
    );
    world.advance_tick();
    assert_eq!(
        world.reactivate_due_static_creatures(),
        StaticCreatureResetSummary {
            reactivated: 1,
            deferred_by_player_occupancy: 0,
            deferred_by_static_creature_occupancy: 0,
        }
    );
    assert_eq!(
        world
            .static_creature_lifecycle(creature_id)
            .unwrap()
            .activated_at_tick,
        3
    );

    assert!(world.deactivate_static_creature(creature_id).unwrap());
    world.add_player(player()).unwrap();
    world
        .move_player_cardinal(7, CardinalDirection::East)
        .unwrap();
    world.advance_ticks(3);
    assert_eq!(
        world.reactivate_due_static_creatures(),
        StaticCreatureResetSummary {
            reactivated: 0,
            deferred_by_player_occupancy: 1,
            deferred_by_static_creature_occupancy: 0,
        }
    );
    assert_eq!(
        world
            .static_creature_lifecycle(creature_id)
            .unwrap()
            .reactivation_due_tick,
        Some(9)
    );
    world
        .move_player_cardinal(7, CardinalDirection::West)
        .unwrap();
    assert_eq!(
        world.reactivate_due_static_creatures(),
        StaticCreatureResetSummary {
            reactivated: 0,
            deferred_by_player_occupancy: 0,
            deferred_by_static_creature_occupancy: 0,
        }
    );
    world.advance_ticks(2);
    assert_eq!(
        world.reactivate_due_static_creatures(),
        StaticCreatureResetSummary {
            reactivated: 0,
            deferred_by_player_occupancy: 0,
            deferred_by_static_creature_occupancy: 0,
        }
    );
    world.advance_tick();
    assert_eq!(
        world.reactivate_due_static_creatures(),
        StaticCreatureResetSummary {
            reactivated: 1,
            deferred_by_player_occupancy: 0,
            deferred_by_static_creature_occupancy: 0,
        }
    );
}

#[test]
fn monster_due_reactivation_is_blocked_by_a_player_inside_its_retained_spawn_area() {
    let creature_id = 0x4000_0001;
    let spawn_position = Position {
        x: 105,
        y: 100,
        z: 7,
    };
    let creature = FeTfsStaticEntity {
        id: creature_id,
        name: "Rat".into(),
        name_description: String::new(),
        position: spawn_position,
        look_type: 21,
        head: 0,
        body: 0,
        legs: 0,
        feet: 0,
        addons: 0,
        speed: 134,
        health_percent: 100,
        direction: 2,
    };
    let collection = FeTfsStaticSpawnCollection::with_respawn_intervals(
        vec![creature],
        BTreeMap::from([(creature_id, 3)]),
    )
    .unwrap()
    .with_monster_spawn_areas(BTreeMap::from([(
        creature_id,
        StaticCreatureSpawnArea {
            center: spawn_position,
            radius: 5,
        },
    )]))
    .unwrap();
    let mut world = WorldState::default();
    world.install_static_creatures(&collection).unwrap();
    world.add_player(player()).unwrap();
    world.deactivate_static_creature(creature_id).unwrap();
    world.advance_ticks(3);

    assert_eq!(
        world.reactivate_due_static_creatures(),
        StaticCreatureResetSummary {
            reactivated: 0,
            deferred_by_player_occupancy: 1,
            deferred_by_static_creature_occupancy: 0,
        }
    );
    assert_eq!(
        world
            .static_creature_lifecycle(creature_id)
            .unwrap()
            .reactivation_due_tick,
        Some(6)
    );
}

#[test]
fn static_creature_runtime_restores_only_the_remaining_reactivation_delay() {
    let creature_id = 0x4000_0001;
    let position = Position {
        x: 101,
        y: 100,
        z: 7,
    };
    let collection = FeTfsStaticSpawnCollection::with_respawn_intervals(
        vec![FeTfsStaticEntity {
            id: creature_id,
            name: "Rat".into(),
            name_description: String::new(),
            position,
            look_type: 21,
            head: 0,
            body: 0,
            legs: 0,
            feet: 0,
            addons: 0,
            speed: 134,
            health_percent: 100,
            direction: 2,
        }],
        BTreeMap::from([(creature_id, 5)]),
    )
    .unwrap();
    let mut world = WorldState::default();
    world.install_static_creatures(&collection).unwrap();
    world.deactivate_static_creature(creature_id).unwrap();
    world.advance_ticks(2);
    let snapshot = world.static_creature_runtime_snapshot();
    assert_eq!(
        snapshot,
        vec![StaticCreatureRuntimeSnapshot {
            id: creature_id,
            position,
            active: false,
            health_percent: 100,
            reactivation_remaining_seconds: Some(3),
            direct_melee_cooldown_remaining_ticks: None,
            direct_melee_damage_sequence: 0,
        }]
    );

    let mut fresh = WorldState::default();
    fresh.install_static_creatures(&collection).unwrap();
    assert_eq!(
        fresh.restore_static_creature_runtime(&snapshot),
        Ok(StaticCreatureRuntimeRestoreSummary {
            restored: 1,
            ignored_unknown: 0,
        })
    );
    fresh.advance_ticks(2);
    assert_eq!(
        fresh.reactivate_due_static_creatures(),
        StaticCreatureResetSummary {
            reactivated: 0,
            deferred_by_player_occupancy: 0,
            deferred_by_static_creature_occupancy: 0,
        }
    );
    fresh.advance_tick();
    assert_eq!(
        fresh.reactivate_due_static_creatures(),
        StaticCreatureResetSummary {
            reactivated: 1,
            deferred_by_player_occupancy: 0,
            deferred_by_static_creature_occupancy: 0,
        }
    );

    let before_invalid = fresh.static_creature_runtime_snapshot();
    assert_eq!(
        fresh.restore_static_creature_runtime(&[StaticCreatureRuntimeSnapshot {
            id: creature_id,
            position,
            active: false,
            health_percent: 100,
            reactivation_remaining_seconds: Some(6),
            direct_melee_cooldown_remaining_ticks: None,
            direct_melee_damage_sequence: 0,
        }]),
        Err(CoreError::InvalidStaticCreatureReactivationDelay {
            id: creature_id,
            remaining_seconds: 6,
            interval_seconds: 5,
        })
    );
    assert_eq!(fresh.static_creature_runtime_snapshot(), before_invalid);
}

#[test]
fn static_creature_target_selection_is_bounded_deterministic_and_cleanup_safe() {
    let creature_id = 0x4000_0001;
    let creature = FeTfsStaticEntity {
        id: creature_id,
        name: "Rat".into(),
        name_description: String::new(),
        position: Position {
            x: 104,
            y: 100,
            z: 7,
        },
        look_type: 21,
        head: 0,
        body: 0,
        legs: 0,
        feet: 0,
        addons: 0,
        speed: 134,
        health_percent: 100,
        direction: 2,
    };
    let mut first = player();
    first.position = Position {
        x: 102,
        y: 100,
        z: 7,
    };
    let mut second = first.clone();
    second.id = 8;
    second.name = "Paladin".into();
    second.position = Position {
        x: 106,
        y: 100,
        z: 7,
    };
    let mut world = WorldState::default();
    world.add_player(first).unwrap();
    world.add_player(second).unwrap();
    world
        .install_static_creatures(&FeTfsStaticSpawnCollection::new(vec![creature]).unwrap())
        .unwrap();

    let revision_before_target = world.revision();
    assert_eq!(
        world.select_static_creature_target(creature_id, 2),
        Ok(StaticCreatureTargetSelection {
            creature_id,
            target_player_id: Some(7),
            max_range: 2,
        })
    );
    assert_eq!(world.static_creature_target(creature_id), Ok(Some(7)));
    assert_eq!(world.revision(), revision_before_target + 1);
    assert_eq!(
        world.select_static_creature_target(creature_id, 2),
        Ok(StaticCreatureTargetSelection {
            creature_id,
            target_player_id: Some(7),
            max_range: 2,
        })
    );
    assert_eq!(world.revision(), revision_before_target + 1);

    assert_eq!(
        world.select_static_creature_target(creature_id, 1),
        Ok(StaticCreatureTargetSelection {
            creature_id,
            target_player_id: None,
            max_range: 1,
        })
    );
    assert_eq!(world.static_creature_target(creature_id), Ok(None));
    assert_eq!(
        world.select_static_creature_target(creature_id, 0),
        Err(CoreError::InvalidStaticCreatureTargetRange(0))
    );
    assert_eq!(
        world.select_static_creature_target(creature_id, MAX_STATIC_CREATURE_TARGET_RANGE + 1,),
        Err(CoreError::InvalidStaticCreatureTargetRange(
            MAX_STATIC_CREATURE_TARGET_RANGE + 1
        ))
    );

    world.select_static_creature_target(creature_id, 2).unwrap();
    world.remove_player(7).unwrap();
    assert_eq!(world.static_creature_target(creature_id), Ok(None));
    assert!(world.deactivate_static_creature(creature_id).unwrap());
    assert_eq!(
        world.static_creature_target(creature_id),
        Err(CoreError::InactiveStaticCreature(creature_id))
    );
}

#[test]
fn static_creature_target_damage_requires_a_live_adjacent_target_and_reuses_death_state() {
    let creature_id = 0x4000_0001;
    let creature_position = Position {
        x: 100,
        y: 100,
        z: 7,
    };
    let target_position = Position {
        x: 101,
        y: 100,
        z: 7,
    };
    let temple_position = Position {
        x: 102,
        y: 100,
        z: 7,
    };
    let creature = FeTfsStaticEntity {
        id: creature_id,
        name: "Rat".into(),
        name_description: String::new(),
        position: creature_position,
        look_type: 21,
        head: 0,
        body: 0,
        legs: 0,
        feet: 0,
        addons: 0,
        speed: 134,
        health_percent: 100,
        direction: 2,
    };
    let mut target = player();
    target.position = target_position;
    let mut map = WorldMap::new("static-target-attack", creature_position);
    map.set_town(WorldMapTown {
        id: 1,
        name: "Temple".into(),
        temple_position,
    })
    .unwrap();
    let mut world = WorldState::default();
    world.add_player(target).unwrap();
    world
        .update_player_vitals(
            7,
            PlayerVitals {
                health: 5,
                max_health: 5,
                ..PlayerVitals::default()
            },
        )
        .unwrap();
    world
        .install_static_creatures(&FeTfsStaticSpawnCollection::new(vec![creature]).unwrap())
        .unwrap();

    assert_eq!(
        world.apply_static_creature_target_damage(creature_id, 1, &map),
        Ok(StaticCreatureTargetAttackOutcome::NoTarget)
    );
    world.select_static_creature_target(creature_id, 1).unwrap();
    assert_eq!(
        world.apply_static_creature_target_damage(creature_id, 5, &map),
        Err(CoreError::UnknownTown(0))
    );
    assert_eq!(world.player_vitals(7).unwrap().health, 5);
    assert_eq!(world.static_creature_target(creature_id), Ok(Some(7)));
    world.replace_player_town(7, 1).unwrap();
    assert_eq!(
        world.apply_static_creature_target_damage(creature_id, 2, &map),
        Ok(StaticCreatureTargetAttackOutcome::Applied {
            creature_id,
            target_player_id: 7,
            requested_damage: 2,
            applied_damage: 2,
            remaining_health: 3,
            death_state: None,
        })
    );
    assert_eq!(world.player_vitals(7).unwrap().health, 3);
    assert_eq!(world.static_creature_target(creature_id), Ok(Some(7)));
    world
        .replace_player_combat_defense(7, PlayerCombatDefense::new(3).unwrap())
        .unwrap();
    assert_eq!(
        world.apply_static_creature_target_damage(creature_id, 3, &map),
        Ok(StaticCreatureTargetAttackOutcome::Applied {
            creature_id,
            target_player_id: 7,
            requested_damage: 3,
            applied_damage: 0,
            remaining_health: 3,
            death_state: None,
        })
    );
    assert_eq!(world.player_vitals(7).unwrap().health, 3);
    assert!(!world.player_respawn_state(7).unwrap().dead);
    world
        .replace_player_combat_defense(7, PlayerCombatDefense::default())
        .unwrap();

    let distant_position = Position {
        x: 103,
        y: 100,
        z: 7,
    };
    world.move_player(7, temple_position).unwrap();
    world.move_player(7, distant_position).unwrap();
    assert_eq!(
        world.apply_static_creature_target_damage(creature_id, 3, &map),
        Ok(StaticCreatureTargetAttackOutcome::TargetNotAdjacent {
            creature_id,
            target_player_id: 7,
        })
    );
    assert_eq!(world.player_vitals(7).unwrap().health, 3);

    world.move_player(7, temple_position).unwrap();
    world.move_player(7, target_position).unwrap();
    assert_eq!(
        world.apply_static_creature_target_damage(creature_id, 3, &map),
        Ok(StaticCreatureTargetAttackOutcome::Applied {
            creature_id,
            target_player_id: 7,
            requested_damage: 3,
            applied_damage: 3,
            remaining_health: 0,
            death_state: Some(PlayerRespawnState {
                dead: true,
                respawn_at: Some(temple_position),
                death_time: Some(0),
                loss_applied: false,
            }),
        })
    );
    assert_eq!(world.player_vitals(7).unwrap().health, 0);
    assert!(world.player_respawn_state(7).unwrap().dead);
    assert_eq!(world.static_creature_target(creature_id), Ok(None));
    assert_eq!(
        world.apply_static_creature_target_damage(creature_id, 1, &map),
        Ok(StaticCreatureTargetAttackOutcome::NoTarget)
    );

    world.deactivate_static_creature(creature_id).unwrap();
    assert_eq!(
        world.apply_static_creature_target_damage(creature_id, 1, &map),
        Err(CoreError::InactiveStaticCreature(creature_id))
    );
}

#[test]
fn static_creature_direct_melee_metadata_prevents_early_repeated_attacks() {
    let creature_id = 0x4000_0002;
    let creature_position = Position {
        x: 100,
        y: 100,
        z: 7,
    };
    let creature = FeTfsStaticEntity {
        id: creature_id,
        name: "Rat".into(),
        name_description: String::new(),
        position: creature_position,
        look_type: 21,
        head: 0,
        body: 0,
        legs: 0,
        feet: 0,
        addons: 0,
        speed: 134,
        health_percent: 100,
        direction: 2,
    };
    let mut target = player();
    target.position = Position {
        x: 101,
        y: 100,
        z: 7,
    };
    let map = WorldMap::new("direct-melee-cooldown", creature_position);
    let static_spawns = FeTfsStaticSpawnCollection::with_runtime_metadata(
        vec![creature],
        std::collections::BTreeMap::new(),
        std::collections::BTreeMap::new(),
        std::collections::BTreeMap::from([(creature_id, 2_000)]),
    )
    .unwrap();
    let mut world = WorldState::default();
    world.add_player(target.clone()).unwrap();
    world
        .update_player_vitals(
            7,
            PlayerVitals {
                health: 20,
                max_health: 20,
                ..PlayerVitals::default()
            },
        )
        .unwrap();
    world.install_static_creatures(&static_spawns).unwrap();
    world.select_static_creature_target(creature_id, 1).unwrap();

    assert!(matches!(
        world.apply_static_creature_target_damage(creature_id, 1, &map),
        Ok(StaticCreatureTargetAttackOutcome::Applied {
            applied_damage: 1,
            ..
        })
    ));
    let snapshot = world.static_creature_runtime_snapshot();
    assert_eq!(snapshot[0].direct_melee_cooldown_remaining_ticks, Some(2));

    let mut fresh = WorldState::default();
    fresh.add_player(target).unwrap();
    fresh
        .update_player_vitals(
            7,
            PlayerVitals {
                health: 20,
                max_health: 20,
                ..PlayerVitals::default()
            },
        )
        .unwrap();
    fresh.install_static_creatures(&static_spawns).unwrap();
    assert_eq!(
        fresh.restore_static_creature_runtime(&snapshot),
        Ok(StaticCreatureRuntimeRestoreSummary {
            restored: 1,
            ignored_unknown: 0,
        })
    );
    fresh.select_static_creature_target(creature_id, 1).unwrap();
    assert_eq!(
        fresh.apply_static_creature_target_damage(creature_id, 1, &map),
        Ok(StaticCreatureTargetAttackOutcome::CooldownNotDue {
            creature_id,
            due_tick: 2,
        })
    );
    fresh.advance_ticks(2);
    assert!(matches!(
        fresh.apply_static_creature_target_damage(creature_id, 1, &map),
        Ok(StaticCreatureTargetAttackOutcome::Applied {
            applied_damage: 1,
            ..
        })
    ));
    assert_eq!(
        world.apply_static_creature_target_damage(creature_id, 1, &map),
        Ok(StaticCreatureTargetAttackOutcome::CooldownNotDue {
            creature_id,
            due_tick: 2,
        })
    );
    world.advance_tick();
    assert_eq!(
        world.apply_static_creature_target_damage(creature_id, 1, &map),
        Ok(StaticCreatureTargetAttackOutcome::CooldownNotDue {
            creature_id,
            due_tick: 2,
        })
    );
    world.advance_tick();
    assert!(matches!(
        world.apply_static_creature_target_damage(creature_id, 1, &map),
        Ok(StaticCreatureTargetAttackOutcome::Applied {
            applied_damage: 1,
            ..
        })
    ));
}

#[test]
fn static_creature_direct_melee_damage_range_cycles_deterministically() {
    let creature_id = 0x4000_0004;
    let creature_position = Position {
        x: 100,
        y: 100,
        z: 7,
    };
    let creature = FeTfsStaticEntity {
        id: creature_id,
        name: "Rat".into(),
        name_description: String::new(),
        position: creature_position,
        look_type: 21,
        head: 0,
        body: 0,
        legs: 0,
        feet: 0,
        addons: 0,
        speed: 134,
        health_percent: 100,
        direction: 2,
    };
    let mut target = player();
    target.position = Position {
        x: 101,
        y: 100,
        z: 7,
    };
    let map = WorldMap::new("direct-melee-range", creature_position);
    let mut world = WorldState::default();
    world.add_player(target).unwrap();
    world
        .update_player_vitals(
            7,
            PlayerVitals {
                health: 50,
                max_health: 50,
                ..PlayerVitals::default()
            },
        )
        .unwrap();
    world
        .install_static_creatures(
            &FeTfsStaticSpawnCollection::with_combat_metadata(
                vec![creature],
                std::collections::BTreeMap::new(),
                std::collections::BTreeMap::new(),
                std::collections::BTreeMap::new(),
                std::collections::BTreeMap::from([(
                    creature_id,
                    StaticCreatureDirectMeleeDamageRange {
                        min_damage: 2,
                        max_damage: 4,
                    },
                )]),
            )
            .unwrap(),
        )
        .unwrap();
    world.select_static_creature_target(creature_id, 1).unwrap();

    for requested_damage in [2, 3, 4, 2] {
        assert!(matches!(
            world.apply_static_creature_target_damage(creature_id, 1, &map),
            Ok(StaticCreatureTargetAttackOutcome::Applied {
                requested_damage: actual,
                applied_damage: applied,
                ..
            }) if actual == requested_damage && applied == requested_damage
        ));
    }
    assert_eq!(world.player_vitals(7).unwrap().health, 39);
}

#[test]
fn god_and_invisible_players_are_untargetable_and_invincible() {
    let mut world = WorldState::default();
    let mut spawn_at = |id, x, y| {
        let mut player = player();
        player.id = id;
        player.position = Position { x, y, z: 7 };
        world.add_player(player).unwrap();
    };
    spawn_at(1, 100, 100); // god-mode GM
    spawn_at(2, 102, 100); // invisible scout
    spawn_at(3, 104, 100); // regular player
    let mut creature = FeTfsStaticEntity {
        id: 0x4000_0001,
        name: "Rat".into(),
        name_description: String::new(),
        position: Position {
            x: 106,
            y: 100,
            z: 7,
        },
        look_type: 21,
        head: 0,
        body: 0,
        legs: 0,
        feet: 0,
        addons: 0,
        speed: 134,
        health_percent: 100,
        direction: 2,
    };
    let _ = &mut creature;
    world
        .install_static_creatures(&FeTfsStaticSpawnCollection::new(vec![creature]).unwrap())
        .unwrap();
    world.set_player_god_mode(1, true).unwrap();
    world.set_player_invisible(2, true).unwrap();
    // The only unflagged player leaves acquisition range: the creature must find nobody.
    world
        .teleport_player(
            3,
            Position {
                x: 130,
                y: 100,
                z: 7,
            },
        )
        .unwrap();

    // Creature targeting skips both flagged players entirely.
    let selection = world.select_static_creature_target(0x4000_0001, 8).unwrap();
    assert_eq!(selection.target_player_id, None);

    // PvP against either flagged player is rejected (attacker walks up to the god first).
    world
        .teleport_player(
            3,
            Position {
                x: 101,
                y: 100,
                z: 7,
            },
        )
        .unwrap();
    let event = PlayerCombatEvent::adjacent_melee(
        3,
        1,
        CombatDamageType::Physical,
        5,
        CombatAttackTiming::new(2).unwrap(),
    )
    .unwrap();
    let pvp_result = world.apply_player_combat_event(event);
    assert!(matches!(pvp_result, Err(CoreError::InvalidCombatEvent)));

    // Invincibility zeroes every damage funnel.
    let health_before = world.player_vitals(1).unwrap().health;
    let outcome = world.apply_player_melee_damage(3, 1, 9).unwrap();
    assert_eq!(outcome.applied_damage, 0);
    assert_eq!(world.player_vitals(1).unwrap().health, health_before);
}

#[test]
fn classic_food_windows_feed_once_regen_and_refuse_when_full() {
    let mut world = WorldState::default();
    let mut eater = player();
    eater.id = 5;
    world.add_player(eater).unwrap();
    world
        .update_player_vitals(
            5,
            PlayerVitals {
                health: 40,
                max_health: 100,
                mana: 10,
                max_mana: 50,
                ..PlayerVitals::default()
            },
        )
        .unwrap();

    // First bite grants the window; a second while active answers "You are full."
    assert!(world.grant_player_food_window(5, 8).unwrap());
    assert!(!world.grant_player_food_window(5, 8).unwrap());
    assert_eq!(world.player_food_window_remaining_ticks(5), Some(8));

    // Four elapsed seconds: exactly one cadence point of health.
    let rules = PlayerRegenerationRules {
        health: RegenerationRule::new(100, 0).unwrap(),
        mana: RegenerationRule::new(100, 0).unwrap(),
    };
    let outcome = world.apply_player_regeneration(5, rules, 4).unwrap();
    assert_eq!(outcome.health_gained, FOOD_REGENERATION_HEALTH_PER_INTERVAL);

    // Window expiry is authoritative-tick absolute: once the clock passes it, eating works.
    world.advance_ticks(9);
    assert_eq!(world.player_food_window_remaining_ticks(5), None);
    assert!(world.grant_player_food_window(5, 8).unwrap());
}

#[test]
fn static_creature_direct_melee_declares_and_peeks_without_consuming() {
    let creature_id = 0x4000_0007;
    let declared_position = Position {
        x: 100,
        y: 100,
        z: 7,
    };
    let declared = FeTfsStaticEntity {
        id: creature_id,
        name: "Rat".into(),
        name_description: String::new(),
        position: declared_position,
        look_type: 21,
        head: 0,
        body: 0,
        legs: 0,
        feet: 0,
        addons: 0,
        speed: 134,
        health_percent: 100,
        direction: 2,
    };
    let undeclared_id = 0x4000_0008;
    let mut undeclared = declared.clone();
    undeclared.id = undeclared_id;
    undeclared.position = Position {
        x: 102,
        y: 100,
        z: 7,
    };
    let mut world = WorldState::default();
    world
        .install_static_creatures(
            &FeTfsStaticSpawnCollection::with_combat_metadata(
                vec![declared, undeclared],
                std::collections::BTreeMap::new(),
                std::collections::BTreeMap::new(),
                std::collections::BTreeMap::new(),
                std::collections::BTreeMap::from([(
                    creature_id,
                    StaticCreatureDirectMeleeDamageRange {
                        min_damage: 2,
                        max_damage: 4,
                    },
                )]),
            )
            .unwrap(),
        )
        .unwrap();

    assert!(world.static_creature_declares_direct_melee(creature_id));
    assert!(!world.static_creature_declares_direct_melee(undeclared_id));
    assert_eq!(
        world.static_creature_declared_damage_for_next_hit(creature_id),
        Some(2)
    );
    // Peeking never advances the deterministic cycling sequence.
    assert_eq!(
        world.static_creature_declared_damage_for_next_hit(creature_id),
        Some(2)
    );
    assert_eq!(
        world.static_creature_declared_damage_for_next_hit(undeclared_id),
        None
    );
}

#[test]
fn distance_shots_validate_range_and_floor_before_applying() {
    let mut map = WorldMap::new(
        "distance",
        Position {
            x: 100,
            y: 100,
            z: 7,
        },
    );
    for x in 95..=110 {
        for y in 98..=102 {
            map.set_tile(
                Position { x, y, z: 7 },
                WorldMapTile {
                    ground_thing_id: 102,
                    walkable: true,
                },
            )
            .unwrap();
        }
    }
    let mut world = WorldState::default();
    let mut shooter = player();
    shooter.id = 1;
    world.add_player(shooter).unwrap();
    let mut target = player();
    target.id = 2;
    target.position = Position {
        x: 104,
        y: 101,
        z: 7,
    };
    world.add_player(target).unwrap();
    world
        .update_player_vitals(
            2,
            PlayerVitals {
                health: 50,
                max_health: 50,
                ..PlayerVitals::default()
            },
        )
        .unwrap();

    // Within the declared range (Chebyshev 4 of a declared 5): applies.
    let event = PlayerCombatEvent::distance_shot(
        1,
        2,
        CombatDamageType::Physical,
        5,
        CombatAttackTiming::new(2).unwrap(),
        5,
    )
    .unwrap();
    let outcome = world.apply_player_combat_event(event).unwrap();
    assert_eq!(outcome.damage.applied_damage, 5);

    // Beyond any bounded range: rejected.
    world
        .teleport_player(
            2,
            Position {
                x: 108,
                y: 101,
                z: 7,
            },
        )
        .unwrap();
    let event = PlayerCombatEvent::distance_shot(
        1,
        2,
        CombatDamageType::Physical,
        5,
        CombatAttackTiming::new(2).unwrap(),
        5,
    )
    .unwrap();
    assert!(matches!(
        world.apply_player_combat_event(event),
        Err(CoreError::CombatOutOfRange { .. })
    ));

    // Cross-floor shots are rejected even at zero tile distance.
    world
        .teleport_player(
            2,
            Position {
                x: 100,
                y: 100,
                z: 6,
            },
        )
        .unwrap();
    let event = PlayerCombatEvent::distance_shot(
        1,
        2,
        CombatDamageType::Physical,
        5,
        CombatAttackTiming::new(2).unwrap(),
        5,
    )
    .unwrap();
    assert!(matches!(
        world.apply_player_combat_event(event),
        Err(CoreError::CombatOutOfRange { .. })
    ));
}

#[test]
fn rune_stack_charge_consumption_drops_the_final_unit() {
    let mut world = WorldState::default();
    world.add_player(player()).unwrap();
    let mut backpack =
        PlayerContainer::new(0, ItemInstance::new(1988, 1).unwrap(), "Backpack", false, 4)
            .unwrap();
    backpack
        .items
        .insert(ItemInstance::new(3198, 3).unwrap())
        .unwrap();
    let mut containers = PlayerContainers::default();
    containers.insert(backpack).unwrap();
    world.replace_player_containers(7, containers).unwrap();

    assert!(world.consume_player_container_item_unit(7, 0, 0).unwrap());
    assert_eq!(
        world
            .player_containers(7)
            .unwrap()
            .container(0)
            .unwrap()
            .items
            .item(0)
            .map(|item| item.count),
        Some(2)
    );
    assert!(world.consume_player_container_item_unit(7, 0, 0).unwrap());
    assert!(world.consume_player_container_item_unit(7, 0, 0).unwrap());
    // The final consumed unit removes the entry entirely (legacy rune-stack semantics).
    assert!(world
        .player_containers(7)
        .unwrap()
        .container(0)
        .unwrap()
        .items
        .item(0)
        .is_none());

    // Unknown players, containers, and indexes stay typed errors.
    assert!(matches!(
        world.consume_player_container_item_unit(99, 0, 0),
        Err(CoreError::UnknownPlayer(99))
    ));
    assert!(matches!(
        world.consume_player_container_item_unit(7, 5, 0),
        Err(CoreError::UnknownPlayerContainer {
            container_id: 5,
            ..
        })
    ));
    assert!(!world
        .consume_player_container_item_unit(7, 0, 9)
        .unwrap_or(true));
}

#[test]
fn static_creature_direct_melee_damage_sequence_survives_snapshot_restore() {
    let creature_id = 0x4000_0005;
    let creature_position = Position {
        x: 100,
        y: 100,
        z: 7,
    };
    let creature = FeTfsStaticEntity {
        id: creature_id,
        name: "Rat".into(),
        name_description: String::new(),
        position: creature_position,
        look_type: 21,
        head: 0,
        body: 0,
        legs: 0,
        feet: 0,
        addons: 0,
        speed: 134,
        health_percent: 100,
        direction: 2,
    };
    let mut target = player();
    target.position = Position {
        x: 101,
        y: 100,
        z: 7,
    };
    let map = WorldMap::new("direct-melee-sequence-restart", creature_position);
    let static_spawns = FeTfsStaticSpawnCollection::with_combat_metadata(
        vec![creature],
        std::collections::BTreeMap::new(),
        std::collections::BTreeMap::new(),
        std::collections::BTreeMap::new(),
        std::collections::BTreeMap::from([(
            creature_id,
            StaticCreatureDirectMeleeDamageRange {
                min_damage: 2,
                max_damage: 4,
            },
        )]),
    )
    .unwrap();
    let mut world = WorldState::default();
    world.add_player(target.clone()).unwrap();
    world
        .update_player_vitals(
            target.id,
            PlayerVitals {
                health: 50,
                max_health: 50,
                ..PlayerVitals::default()
            },
        )
        .unwrap();
    world.install_static_creatures(&static_spawns).unwrap();
    world.select_static_creature_target(creature_id, 1).unwrap();
    assert!(matches!(
        world.apply_static_creature_target_damage(creature_id, 1, &map),
        Ok(StaticCreatureTargetAttackOutcome::Applied {
            requested_damage: 2,
            ..
        })
    ));
    let snapshot = world.static_creature_runtime_snapshot();
    assert_eq!(snapshot[0].direct_melee_damage_sequence, 1);

    let mut fresh = WorldState::default();
    fresh.add_player(target.clone()).unwrap();
    fresh
        .update_player_vitals(
            target.id,
            PlayerVitals {
                health: 50,
                max_health: 50,
                ..PlayerVitals::default()
            },
        )
        .unwrap();
    fresh.install_static_creatures(&static_spawns).unwrap();
    assert_eq!(
        fresh.restore_static_creature_runtime(&snapshot),
        Ok(StaticCreatureRuntimeRestoreSummary {
            restored: 1,
            ignored_unknown: 0,
        })
    );
    fresh.select_static_creature_target(creature_id, 1).unwrap();
    assert!(matches!(
        fresh.apply_static_creature_target_damage(creature_id, 1, &map),
        Ok(StaticCreatureTargetAttackOutcome::Applied {
            requested_damage: 3,
            ..
        })
    ));
    assert_eq!(
        fresh.static_creature_runtime_snapshot()[0].direct_melee_damage_sequence,
        2
    );
}

#[test]
fn static_creature_without_direct_melee_metadata_attacks_on_each_heartbeat() {
    let creature_id = 0x4000_0003;
    let creature_position = Position {
        x: 100,
        y: 100,
        z: 7,
    };
    let creature = FeTfsStaticEntity {
        id: creature_id,
        name: "Rat".into(),
        name_description: String::new(),
        position: creature_position,
        look_type: 21,
        head: 0,
        body: 0,
        legs: 0,
        feet: 0,
        addons: 0,
        speed: 134,
        health_percent: 100,
        direction: 2,
    };
    let mut target = player();
    target.position = Position {
        x: 101,
        y: 100,
        z: 7,
    };
    let map = WorldMap::new("unbounded-direct-melee", creature_position);
    let mut world = WorldState::default();
    world.add_player(target).unwrap();
    world
        .update_player_vitals(
            7,
            PlayerVitals {
                health: 20,
                max_health: 20,
                ..PlayerVitals::default()
            },
        )
        .unwrap();
    world
        .install_static_creatures(&FeTfsStaticSpawnCollection::new(vec![creature]).unwrap())
        .unwrap();
    world.select_static_creature_target(creature_id, 1).unwrap();

    assert!(matches!(
        world.apply_static_creature_target_damage(creature_id, 1, &map),
        Ok(StaticCreatureTargetAttackOutcome::Applied {
            applied_damage: 1,
            ..
        })
    ));
    assert!(matches!(
        world.apply_static_creature_target_damage(creature_id, 1, &map),
        Ok(StaticCreatureTargetAttackOutcome::Applied {
            applied_damage: 1,
            ..
        })
    ));
}

#[test]
fn static_creature_target_step_is_single_deterministic_and_map_validated() {
    let creature_id = 0x4000_0001;
    let creature = FeTfsStaticEntity {
        id: creature_id,
        name: "Rat".into(),
        name_description: String::new(),
        position: Position {
            x: 100,
            y: 100,
            z: 7,
        },
        look_type: 21,
        head: 0,
        body: 0,
        legs: 0,
        feet: 0,
        addons: 0,
        speed: 134,
        health_percent: 100,
        direction: 2,
    };
    let mut target = player();
    target.position = Position {
        x: 103,
        y: 101,
        z: 7,
    };
    let mut map = WorldMap::new("target-step", creature.position);
    for position in [
        Position {
            x: 100,
            y: 100,
            z: 7,
        },
        Position {
            x: 101,
            y: 100,
            z: 7,
        },
        Position {
            x: 100,
            y: 101,
            z: 7,
        },
        Position {
            x: 101,
            y: 101,
            z: 7,
        },
    ] {
        map.set_tile(
            position,
            WorldMapTile {
                ground_thing_id: 102,
                walkable: position
                    != Position {
                        x: 101,
                        y: 100,
                        z: 7,
                    },
            },
        )
        .unwrap();
    }
    let mut world = WorldState::default();
    world.add_player(target).unwrap();
    world
        .install_static_creatures(
            &FeTfsStaticSpawnCollection::new(vec![creature.clone()]).unwrap(),
        )
        .unwrap();

    let revision_before_selection = world.revision();
    assert_eq!(
        world.step_static_creature_toward_target(creature_id, &map),
        Ok(StaticCreatureTargetStepOutcome::NoTarget)
    );
    assert_eq!(world.revision(), revision_before_selection);
    world.select_static_creature_target(creature_id, 4).unwrap();
    assert_eq!(
        world.step_static_creature_toward_target(creature_id, &map),
        Ok(StaticCreatureTargetStepOutcome::Moved {
            target_player_id: 7,
            direction: CardinalDirection::South,
            from: Position {
                x: 100,
                y: 100,
                z: 7
            },
            to: Position {
                x: 100,
                y: 101,
                z: 7
            },
        })
    );
    assert_eq!(
        world.static_creature(creature_id).unwrap().position,
        Position {
            x: 100,
            y: 101,
            z: 7
        }
    );
    assert_eq!(
        world.step_static_creature_toward_target(creature_id, &map),
        Ok(StaticCreatureTargetStepOutcome::Moved {
            target_player_id: 7,
            direction: CardinalDirection::East,
            from: Position {
                x: 100,
                y: 101,
                z: 7
            },
            to: Position {
                x: 101,
                y: 101,
                z: 7
            },
        })
    );

    let mut blocked_map = WorldMap::new("blocked-target-step", creature.position);
    blocked_map
        .set_tile(
            Position {
                x: 101,
                y: 101,
                z: 7,
            },
            WorldMapTile {
                ground_thing_id: 102,
                walkable: false,
            },
        )
        .unwrap();
    blocked_map
        .set_tile(
            Position {
                x: 101,
                y: 102,
                z: 7,
            },
            WorldMapTile {
                ground_thing_id: 102,
                walkable: false,
            },
        )
        .unwrap();
    assert_eq!(
        world.step_static_creature_toward_target(creature_id, &blocked_map),
        Ok(StaticCreatureTargetStepOutcome::Blocked {
            target_player_id: 7
        })
    );
}

#[test]
fn static_creature_target_detour_is_bounded_and_preserves_direct_default() {
    let creature_id = 0x4000_0001;
    let creature = FeTfsStaticEntity {
        id: creature_id,
        name: "Rat".into(),
        name_description: String::new(),
        position: Position {
            x: 100,
            y: 100,
            z: 7,
        },
        look_type: 21,
        head: 0,
        body: 0,
        legs: 0,
        feet: 0,
        addons: 0,
        speed: 134,
        health_percent: 100,
        direction: 2,
    };
    let mut target = player();
    target.position = Position {
        x: 102,
        y: 100,
        z: 7,
    };
    let mut map = WorldMap::new("detour-target-step", creature.position);
    for (position, walkable) in [
        (creature.position, true),
        (
            Position {
                x: 101,
                y: 100,
                z: 7,
            },
            false,
        ),
        (
            Position {
                x: 100,
                y: 99,
                z: 7,
            },
            true,
        ),
        (
            Position {
                x: 101,
                y: 99,
                z: 7,
            },
            true,
        ),
        (
            Position {
                x: 102,
                y: 99,
                z: 7,
            },
            true,
        ),
        (target.position, true),
    ] {
        map.set_tile(
            position,
            WorldMapTile {
                ground_thing_id: 102,
                walkable,
            },
        )
        .unwrap();
    }
    let mut world = WorldState::default();
    world.add_player(target).unwrap();
    world
        .install_static_creatures(&FeTfsStaticSpawnCollection::new(vec![creature]).unwrap())
        .unwrap();
    world.select_static_creature_target(creature_id, 4).unwrap();

    assert_eq!(
        world.step_static_creature_toward_target(creature_id, &map),
        Ok(StaticCreatureTargetStepOutcome::Blocked {
            target_player_id: 7
        })
    );
    assert_eq!(
        world.step_static_creature_toward_target_with_detour(creature_id, &map, 3),
        Ok(StaticCreatureTargetStepOutcome::Moved {
            target_player_id: 7,
            direction: CardinalDirection::North,
            from: Position {
                x: 100,
                y: 100,
                z: 7,
            },
            to: Position {
                x: 100,
                y: 99,
                z: 7,
            },
        })
    );
}

#[test]
fn static_creature_moves_are_authoritative_bounded_and_render_active_only() {
    let mut map = WorldMap::new(
        "movement",
        Position {
            x: 100,
            y: 100,
            z: 7,
        },
    );
    for x in 100..=103 {
        map.set_tile(
            Position { x, y: 100, z: 7 },
            WorldMapTile {
                ground_thing_id: 102,
                walkable: x != 103,
            },
        )
        .unwrap();
    }
    let first = FeTfsStaticEntity {
        id: 0x4000_0001,
        name: "Rat".into(),
        name_description: String::new(),
        position: Position {
            x: 101,
            y: 100,
            z: 7,
        },
        look_type: 21,
        head: 0,
        body: 0,
        legs: 0,
        feet: 0,
        addons: 0,
        speed: 134,
        health_percent: 100,
        direction: 2,
    };
    let second = FeTfsStaticEntity {
        id: 0x4000_0002,
        name: "Snake".into(),
        name_description: String::new(),
        position: Position {
            x: 102,
            y: 100,
            z: 7,
        },
        ..first.clone()
    };
    let mut world = WorldState::default();
    world
        .install_static_creatures(
            &FeTfsStaticSpawnCollection::new(vec![first.clone(), second.clone()]).unwrap(),
        )
        .unwrap();
    world.add_player(player()).unwrap();

    assert_eq!(
        world.move_static_creature_cardinal(0x4000_0001, CardinalDirection::East, &map),
        Err(CoreError::StaticCreatureOccupiesPosition(second.position))
    );
    world.deactivate_static_creature(second.id).unwrap();
    assert_eq!(
        world
            .move_static_creature_cardinal(0x4000_0001, CardinalDirection::East, &map)
            .unwrap(),
        (first.position, second.position)
    );
    assert!(!world.is_static_creature_occupied(first.position));
    assert!(world.is_static_creature_occupied(second.position));
    assert_eq!(world.active_static_spawn_collection().entities.len(), 1);
    assert_eq!(
        world.active_static_spawn_collection().entities[0].position,
        second.position
    );
    assert_eq!(
        world.move_static_creature_cardinal(0x4000_0001, CardinalDirection::East, &map),
        Err(CoreError::StaticCreatureMovementBlocked(Position {
            x: 103,
            y: 100,
            z: 7,
        }))
    );
    assert_eq!(
        world.move_static_creature_cardinal(0x4000_0002, CardinalDirection::West, &map),
        Err(CoreError::InactiveStaticCreature(0x4000_0002))
    );
}

#[test]
fn static_creature_runtime_restore_is_validated_idempotent_and_clears_targets() {
    let creature_id = 0x4000_0001;
    let initial_position = Position {
        x: 101,
        y: 100,
        z: 7,
    };
    let restored_position = Position {
        x: 102,
        y: 100,
        z: 7,
    };
    let creature = FeTfsStaticEntity {
        id: creature_id,
        name: "Rat".into(),
        name_description: String::new(),
        position: initial_position,
        look_type: 21,
        head: 0,
        body: 0,
        legs: 0,
        feet: 0,
        addons: 0,
        speed: 134,
        health_percent: 100,
        direction: 2,
    };
    let source = player();
    let mut world = WorldState::default();
    world.add_player(source.clone()).unwrap();
    world
        .install_static_creatures(&FeTfsStaticSpawnCollection::new(vec![creature]).unwrap())
        .unwrap();
    world
        .set_player_static_target(source.id, Some(creature_id))
        .unwrap();
    world.select_static_creature_target(creature_id, 8).unwrap();

    let records = [
        StaticCreatureRuntimeSnapshot {
            id: creature_id,
            position: restored_position,
            active: false,
            health_percent: 70,
            reactivation_remaining_seconds: None,
            direct_melee_cooldown_remaining_ticks: None,
            direct_melee_damage_sequence: 0,
        },
        StaticCreatureRuntimeSnapshot {
            id: 0x4000_9999,
            position: initial_position,
            active: true,
            health_percent: 100,
            reactivation_remaining_seconds: None,
            direct_melee_cooldown_remaining_ticks: None,
            direct_melee_damage_sequence: 0,
        },
    ];
    assert_eq!(
        world.restore_static_creature_runtime(&records),
        Ok(StaticCreatureRuntimeRestoreSummary {
            restored: 1,
            ignored_unknown: 1,
        })
    );
    assert_eq!(
        world.static_creature_runtime_snapshot(),
        vec![StaticCreatureRuntimeSnapshot {
            id: creature_id,
            position: restored_position,
            active: false,
            health_percent: 70,
            reactivation_remaining_seconds: None,
            direct_melee_cooldown_remaining_ticks: None,
            direct_melee_damage_sequence: 0,
        }]
    );
    assert_eq!(
        world.static_creature_target(creature_id),
        Err(CoreError::InactiveStaticCreature(creature_id))
    );
    assert_eq!(
        world.player_interaction_intent(source.id),
        Ok(PlayerInteractionIntent::default())
    );
    assert!(!world.is_static_creature_occupied(initial_position));
    assert!(!world.is_static_creature_occupied(restored_position));

    let snapshot_before_invalid = world.static_creature_runtime_snapshot();
    assert_eq!(
        world.restore_static_creature_runtime(&[StaticCreatureRuntimeSnapshot {
            id: creature_id,
            position: source.position,
            active: true,
            health_percent: 100,
            reactivation_remaining_seconds: None,
            direct_melee_cooldown_remaining_ticks: None,
            direct_melee_damage_sequence: 0,
        }]),
        Err(CoreError::PlayerOccupiesStaticCreaturePosition(
            source.position
        ))
    );
    assert_eq!(
        world.static_creature_runtime_snapshot(),
        snapshot_before_invalid
    );
}

#[test]
fn deterministic_static_creature_policy_selects_safe_adjacent_steps_only() {
    let mut map = WorldMap::new(
        "policy",
        Position {
            x: 100,
            y: 100,
            z: 7,
        },
    );
    for position in [
        Position {
            x: 100,
            y: 100,
            z: 7,
        },
        Position {
            x: 101,
            y: 100,
            z: 7,
        },
        Position {
            x: 102,
            y: 100,
            z: 7,
        },
        Position {
            x: 101,
            y: 101,
            z: 7,
        },
    ] {
        map.set_tile(
            position,
            WorldMapTile {
                ground_thing_id: 102,
                walkable: true,
            },
        )
        .unwrap();
    }
    let creature_id = 0x4000_0001;
    let creature = FeTfsStaticEntity {
        id: creature_id,
        name: "Rat".into(),
        name_description: String::new(),
        position: Position {
            x: 101,
            y: 100,
            z: 7,
        },
        look_type: 21,
        head: 0,
        body: 0,
        legs: 0,
        feet: 0,
        addons: 0,
        speed: 134,
        health_percent: 100,
        direction: 2,
    };
    let mut world = WorldState::default();
    world
        .install_static_creatures(&FeTfsStaticSpawnCollection::new(vec![creature]).unwrap())
        .unwrap();
    world
        .add_player(Player {
            id: 9,
            account_id: 9,
            name: "Blocker".into(),
            position: Position {
                x: 102,
                y: 100,
                z: 7,
            },
            level: 1,
            experience: 0,
            skill_points: 0,
        })
        .unwrap();
    assert_eq!(
        world.plan_static_creature_moves(StaticCreatureDecisionPolicy::Disabled, &map),
        StaticCreatureDecisionBatch::default()
    );
    let expected = StaticCreatureDecisionBatch {
        decisions: vec![StaticCreatureMoveDecision {
            creature_id,
            direction: CardinalDirection::South,
        }],
        skipped: 0,
    };
    assert_eq!(
        world.plan_static_creature_moves(StaticCreatureDecisionPolicy::ClockwiseAdjacent, &map),
        expected
    );
    assert_eq!(
        world
            .apply_static_creature_policy(StaticCreatureDecisionPolicy::ClockwiseAdjacent, &map)
            .unwrap(),
        expected
    );
    assert_eq!(
        world.static_creature(creature_id).unwrap().position,
        Position {
            x: 101,
            y: 101,
            z: 7,
        }
    );
    world.deactivate_static_creature(creature_id).unwrap();
    assert_eq!(
        world.plan_static_creature_moves(StaticCreatureDecisionPolicy::ClockwiseAdjacent, &map),
        StaticCreatureDecisionBatch::default()
    );
}

#[test]
fn static_creature_registration_rejects_existing_player_overlap() {
    let position = Position {
        x: 100,
        y: 100,
        z: 7,
    };
    let mut world = WorldState::default();
    world.add_player(player()).unwrap();
    let collection = FeTfsStaticSpawnCollection::new(vec![FeTfsStaticEntity {
        id: 0x4000_0001,
        name: "Rat".into(),
        name_description: String::new(),
        position,
        look_type: 21,
        head: 0,
        body: 0,
        legs: 0,
        feet: 0,
        addons: 0,
        speed: 134,
        health_percent: 100,
        direction: 2,
    }])
    .unwrap();
    assert_eq!(
        world.install_static_creatures(&collection),
        Err(CoreError::PlayerOccupiesStaticCreaturePosition(position))
    );
    assert_eq!(world.static_creature_count(), 0);
}

#[test]
fn authoritative_player_vitals_validate_update_and_bound_damage() {
    let mut world = WorldState::default();
    let invalid = PlayerVitals {
        health: 151,
        max_health: 150,
        ..PlayerVitals::default()
    };
    assert_eq!(
        world.add_player_with_vitals(player(), invalid),
        Err(CoreError::InvalidPlayerVitals(7))
    );

    world.add_player(player()).unwrap();
    let mut target = player();
    target.id = 8;
    target.name = "Druid".into();
    target.position.x = 101;
    world
        .add_player_with_vitals(
            target,
            PlayerVitals {
                health: 30,
                max_health: 50,
                mana: 20,
                max_mana: 50,
                capacity: 32_000,
                magic_level: 4,
            },
        )
        .unwrap();
    world
        .update_player_vitals(
            7,
            PlayerVitals {
                health: 120,
                max_health: 150,
                mana: 42,
                max_mana: 50,
                capacity: 35_000,
                magic_level: 3,
            },
        )
        .unwrap();

    assert_eq!(
        world.apply_player_damage(7, 8, 12).unwrap(),
        PlayerDamageOutcome {
            attacker_id: 7,
            target_id: 8,
            requested_damage: 12,
            applied_damage: 12,
            remaining_health: 18,
            defeated: false,
        }
    );
    assert_eq!(world.player_vitals(8).unwrap().health, 18);
    assert_eq!(
        world.apply_player_damage(7, 8, 99).unwrap(),
        PlayerDamageOutcome {
            attacker_id: 7,
            target_id: 8,
            requested_damage: 99,
            applied_damage: 18,
            remaining_health: 0,
            defeated: true,
        }
    );
    assert_eq!(
        world.apply_player_damage(7, 7, 1),
        Err(CoreError::SelfInteractionNotAllowed(7))
    );

    let mut distant = player();
    distant.id = 9;
    distant.name = "Sorcerer".into();
    distant.position.x = 103;
    world.add_player(distant).unwrap();
    assert_eq!(
        world.apply_player_melee_damage(7, 9, 5),
        Err(CoreError::CombatOutOfRange {
            attacker_id: 7,
            target_id: 9,
        })
    );
}

#[test]
fn typed_adjacent_melee_events_enforce_deterministic_cooldowns() {
    assert_eq!(
        CombatAttackTiming::new(0),
        Err(CoreError::InvalidCombatEvent)
    );
    assert_eq!(
        CombatAttackTiming::new(MAX_COMBAT_INTERVAL_TICKS + 1),
        Err(CoreError::InvalidCombatEvent)
    );
    let timing = CombatAttackTiming::new(2).unwrap();
    assert_eq!(
        PlayerCombatEvent::adjacent_melee(7, 8, CombatDamageType::Physical, 0, timing),
        Err(CoreError::InvalidCombatEvent)
    );
    assert_eq!(
        PlayerCombatEvent::adjacent_melee(
            7,
            8,
            CombatDamageType::Physical,
            MAX_COMBAT_EVENT_DAMAGE + 1,
            timing,
        ),
        Err(CoreError::InvalidCombatEvent)
    );

    let mut world = WorldState::default();
    world.add_player(player()).unwrap();
    let mut target = player();
    target.id = 8;
    target.name = "Druid".into();
    target.position.x = 101;
    world
        .add_player_with_vitals(
            target,
            PlayerVitals {
                health: 30,
                max_health: 30,
                ..PlayerVitals::default()
            },
        )
        .unwrap();
    let event = PlayerCombatEvent::adjacent_melee(7, 8, CombatDamageType::Physical, 10, timing)
        .unwrap();
    let revision = world.revision();
    assert_eq!(
        world.apply_player_combat_event(event).unwrap(),
        PlayerCombatEventOutcome {
            damage: PlayerDamageOutcome {
                attacker_id: 7,
                target_id: 8,
                requested_damage: 10,
                applied_damage: 10,
                remaining_health: 20,
                defeated: false,
            },
            damage_type: CombatDamageType::Physical,
            mitigated_damage: 10,
            next_attack_tick: 2,
        }
    );
    assert_eq!(world.player_combat_cooldown(7).unwrap().next_attack_tick, 2);
    assert_eq!(world.revision(), revision + 1);
    assert_eq!(
        world.apply_player_combat_event(event),
        Err(CoreError::CombatCooldownActive {
            attacker_id: 7,
            current_tick: 0,
            next_attack_tick: 2,
        })
    );
    world.advance_ticks(2);
    assert_eq!(
        world
            .apply_player_combat_event(event)
            .unwrap()
            .damage
            .remaining_health,
        10
    );
    assert_eq!(
        world.apply_player_combat_event(
            PlayerCombatEvent::adjacent_melee(7, 8, CombatDamageType::Fire, 10, timing,)
                .unwrap()
        ),
        Err(CoreError::InvalidCombatEvent)
    );
    world.remove_player(7).unwrap();
    assert_eq!(
        world.player_combat_cooldown(7),
        Err(CoreError::UnknownPlayer(7))
    );
}

#[test]
fn profile_neutral_physical_defense_mitigates_typed_events_deterministically() {
    assert_eq!(
        PlayerCombatDefense::new(MAX_COMBAT_EVENT_DAMAGE + 1),
        Err(CoreError::InvalidCombatDefense)
    );
    let mut world = WorldState::default();
    world.add_player(player()).unwrap();
    let mut target = player();
    target.id = 8;
    target.name = "Druid".into();
    target.position.x = 101;
    world
        .add_player_with_vitals(
            target,
            PlayerVitals {
                health: 25,
                max_health: 25,
                ..PlayerVitals::default()
            },
        )
        .unwrap();
    let defense = PlayerCombatDefense::new(3).unwrap();
    assert!(world.replace_player_combat_defense(8, defense).unwrap());
    assert!(!world.replace_player_combat_defense(8, defense).unwrap());
    let event = PlayerCombatEvent::adjacent_melee(
        7,
        8,
        CombatDamageType::Physical,
        10,
        CombatAttackTiming::new(1).unwrap(),
    )
    .unwrap();
    let outcome = world.apply_player_combat_event(event).unwrap();
    assert_eq!(outcome.mitigated_damage, 7);
    assert_eq!(outcome.damage.applied_damage, 7);
    assert_eq!(outcome.damage.remaining_health, 18);

    world.advance_tick();
    world
        .replace_player_combat_defense(8, PlayerCombatDefense::new(10).unwrap())
        .unwrap();
    let absorbed = world.apply_player_combat_event(event).unwrap();
    assert_eq!(absorbed.mitigated_damage, 0);
    assert_eq!(absorbed.damage.applied_damage, 0);
    assert_eq!(absorbed.damage.remaining_health, 18);
    assert_eq!(world.player_combat_cooldown(7).unwrap().next_attack_tick, 2);

    world.remove_player(8).unwrap();
    assert_eq!(
        world.player_combat_defense(8),
        Err(CoreError::UnknownPlayer(8))
    );
}

#[test]
fn fight_mode_state_is_authoritative_idempotent_and_cleared_with_player() {
    let mut world = WorldState::default();
    world.add_player(player()).unwrap();
    assert_eq!(
        world.player_fight_mode_state(7).unwrap(),
        PlayerFightModeState {
            mode: PlayerFightMode::Attack,
            chase: false,
            secure: false,
        }
    );
    let revision = world.revision();
    let state = PlayerFightModeState {
        mode: PlayerFightMode::Balanced,
        chase: true,
        secure: true,
    };
    assert!(world.replace_player_fight_mode_state(7, state).unwrap());
    assert_eq!(world.revision(), revision + 1);
    assert!(!world.replace_player_fight_mode_state(7, state).unwrap());
    assert_eq!(world.revision(), revision + 1);
    assert_eq!(world.player_fight_mode_state(7).unwrap(), state);
    world.remove_player(7).unwrap();
    assert_eq!(
        world.player_fight_mode_state(7),
        Err(CoreError::UnknownPlayer(7))
    );
}

#[test]
fn typed_spell_casts_enforce_authoritative_mana_and_cooldown_state() {
    let timing = CombatAttackTiming::new(2).unwrap();
    assert_eq!(
        PlayerSpellCastEvent::new(7, 0, 10, timing),
        Err(CoreError::InvalidSpellCastEvent)
    );
    assert_eq!(
        PlayerSpellCastEvent::new(7, 1, 0, timing),
        Err(CoreError::InvalidSpellCastEvent)
    );
    assert_eq!(
        PlayerSpellCastEvent::new(7, 1, MAX_SPELL_MANA_COST + 1, timing),
        Err(CoreError::InvalidSpellCastEvent)
    );

    let mut world = WorldState::default();
    world.add_player(player()).unwrap();
    world
        .update_player_vitals(
            7,
            PlayerVitals {
                mana: 40,
                ..PlayerVitals::default()
            },
        )
        .unwrap();
    let event = PlayerSpellCastEvent::new(7, 100, 30, timing).unwrap();
    let outcome = world.apply_player_spell_cast_event(event).unwrap();
    assert_eq!(
        outcome,
        PlayerSpellCastOutcome {
            caster_id: 7,
            spell_id: 100,
            mana_spent: 30,
            remaining_mana: 10,
            next_cast_tick: 2,
        }
    );
    assert_eq!(world.player_vitals(7).unwrap().mana, 10);
    assert_eq!(world.player_spell_cooldown(7).unwrap().next_cast_tick, 2);
    assert_eq!(
        world.apply_player_spell_cast_event(event),
        Err(CoreError::SpellCooldownActive {
            caster_id: 7,
            current_tick: 0,
            next_cast_tick: 2,
        })
    );

    world.advance_ticks(2);
    assert_eq!(
        world.apply_player_spell_cast_event(event),
        Err(CoreError::InsufficientMana {
            player_id: 7,
            required_mana: 30,
            available_mana: 10,
        })
    );
    assert_eq!(world.player_spell_cooldown(7).unwrap().next_cast_tick, 2);

    world
        .update_player_vitals(
            7,
            PlayerVitals {
                mana: 35,
                ..world.player_vitals(7).unwrap()
            },
        )
        .unwrap();
    assert_eq!(
        world
            .apply_player_spell_cast_event(event)
            .unwrap()
            .remaining_mana,
        5
    );
    assert_eq!(world.player_spell_cooldown(7).unwrap().next_cast_tick, 4);
    world.remove_player(7).unwrap();
    assert_eq!(
        world.player_spell_cooldown(7),
        Err(CoreError::UnknownPlayer(7))
    );
}

#[test]
fn typed_player_skills_are_bounded_ordered_and_authoritative() {
    assert_eq!(
        PlayerSkill::ALL.map(PlayerSkill::code),
        [0, 1, 2, 3, 4, 5, 6]
    );
    assert_eq!(PlayerSkill::from_code(4), Some(PlayerSkill::Distance));
    assert_eq!(PlayerSkill::from_code(7), None);
    assert_eq!(
        SkillProgress::new(0, 0),
        Err(CoreError::InvalidSkillProgress {
            level: 0,
            percent: 0
        })
    );
    assert_eq!(
        SkillProgress::new(10, 101),
        Err(CoreError::InvalidSkillProgress {
            level: 10,
            percent: 101
        })
    );

    let mut skills = PlayerSkills::default();
    assert!(skills.set(PlayerSkill::Sword, SkillProgress::new(42, 73).unwrap()));
    assert!(!skills.set(PlayerSkill::Sword, SkillProgress::new(42, 73).unwrap()));
    assert_eq!(
        skills.skill(PlayerSkill::Sword),
        SkillProgress::new(42, 73).unwrap()
    );
    assert_eq!(
        skills.iter()[2],
        (PlayerSkill::Sword, SkillProgress::new(42, 73).unwrap())
    );

    assert_eq!(BaseVocation::Knight.id().base(), Some(BaseVocation::Knight));
    assert_eq!(VocationId::new(8).base(), None);

    let mut world = WorldState::default();
    world.add_player(player()).unwrap();
    let revision = world.revision();
    let progression = PlayerProgression {
        vocation: BaseVocation::Knight.id(),
        skills,
    };
    assert!(world.replace_player_progression(7, progression).unwrap());
    assert_eq!(world.revision(), revision + 1);
    assert!(!world.replace_player_progression(7, progression).unwrap());
    assert_eq!(world.revision(), revision + 1);
    assert_eq!(world.player_progression(7).unwrap(), progression);
    world.remove_player(7).unwrap();
    assert_eq!(
        world.player_progression(7),
        Err(CoreError::UnknownPlayer(7))
    );
}


#[test]
fn authoritative_regeneration_is_interval_bound_capped_and_cleanup_safe() {
    assert_eq!(
        RegenerationRule::new(0, 1),
        Err(CoreError::InvalidRegenerationInterval)
    );
    let rules = PlayerRegenerationRules {
        health: RegenerationRule::new(3, 5).unwrap(),
        mana: RegenerationRule::new(2, 4).unwrap(),
    };
    let mut world = WorldState::default();
    world.add_player(player()).unwrap();
    world
        .update_player_vitals(
            7,
            PlayerVitals {
                health: 140,
                max_health: 150,
                mana: 45,
                max_mana: 50,
                capacity: 40_000,
                magic_level: 0,
            },
        )
        .unwrap();
    let revision = world.revision();
    assert_eq!(
        world.apply_player_regeneration(7, rules, 1).unwrap(),
        PlayerRegenerationOutcome {
            player_id: 7,
            health_gained: 0,
            mana_gained: 0,
            vitals: world.player_vitals(7).unwrap(),
        }
    );
    assert_eq!(world.revision(), revision);
    let outcome = world.apply_player_regeneration(7, rules, 2).unwrap();
    assert_eq!(outcome.health_gained, 5);
    assert_eq!(outcome.mana_gained, 4);
    assert_eq!(outcome.vitals.health, 145);
    assert_eq!(outcome.vitals.mana, 49);
    let capped = world
        .apply_player_regeneration(7, rules, MAX_REGENERATION_ELAPSED_SECONDS)
        .unwrap();
    assert_eq!(capped.vitals.health, 150);
    assert_eq!(capped.vitals.mana, 50);
    world
        .update_player_vitals(
            7,
            PlayerVitals {
                health: 0,
                ..capped.vitals
            },
        )
        .unwrap();
    world
        .hydrate_player_respawn_state(
            7,
            PlayerRespawnState {
                dead: true,
                respawn_at: Some(Position {
                    x: 110,
                    y: 120,
                    z: 7,
                }),
                death_time: Some(0),
                loss_applied: false,
            },
        )
        .unwrap();
    let dead_revision = world.revision();
    let dead = world
        .apply_player_regeneration(7, rules, MAX_REGENERATION_ELAPSED_SECONDS)
        .unwrap();
    assert_eq!(dead.health_gained, 0);
    assert_eq!(dead.mana_gained, 0);
    assert_eq!(dead.vitals.health, 0);
    assert_eq!(world.revision(), dead_revision);
    world.remove_player(7).unwrap();
    assert_eq!(
        world.apply_player_regeneration(7, rules, 1),
        Err(CoreError::UnknownPlayer(7))
    );
}

#[test]
fn persisted_respawn_state_hydration_is_strict_and_idempotent() {
    let mut world = WorldState::default();
    world.add_player(player()).unwrap();
    let state = PlayerRespawnState {
        dead: true,
        respawn_at: Some(Position {
            x: 110,
            y: 120,
            z: 7,
        }),
        death_time: Some(12),
        loss_applied: true,
    };
    let revision = world.revision();
    assert!(world.hydrate_player_respawn_state(7, state).unwrap());
    assert_eq!(world.player_respawn_state(7).unwrap(), state);
    assert_eq!(world.revision(), revision + 1);
    assert!(!world.hydrate_player_respawn_state(7, state).unwrap());
    assert_eq!(world.revision(), revision + 1);

    assert_eq!(
        world.hydrate_player_respawn_state(
            7,
            PlayerRespawnState {
                dead: true,
                respawn_at: None,
                death_time: Some(12),
                loss_applied: false,
            },
        ),
        Err(CoreError::InvalidPlayerRespawnState(7))
    );
    assert_eq!(
        world.hydrate_player_respawn_state(
            7,
            PlayerRespawnState {
                dead: false,
                respawn_at: Some(Position {
                    x: 110,
                    y: 120,
                    z: 7,
                }),
                death_time: None,
                loss_applied: false,
            },
        ),
        Err(CoreError::InvalidPlayerRespawnState(7))
    );
    assert_eq!(world.player_respawn_state(7).unwrap(), state);
}

#[test]
fn authoritative_death_state_resolves_a_temple_without_respawning() {
    let mut world = WorldState::default();
    world.add_player(player()).unwrap();
    assert_eq!(
        world.player_respawn_state(7).unwrap(),
        PlayerRespawnState::default()
    );
    world
        .apply_player_condition(
            7,
            PlayerCondition::new(PlayerConditionKind::Poison, 2, 7, 5).unwrap(),
        )
        .unwrap();

    let temple = Position {
        x: 110,
        y: 120,
        z: 7,
    };
    let mut map = WorldMap::new("death-state", temple);
    map.set_town(WorldMapTown {
        id: 42,
        name: "Thais".to_owned(),
        temple_position: temple,
    })
    .unwrap();

    assert_eq!(
        world.apply_player_death(7, 999, &map),
        Err(CoreError::UnknownTown(999))
    );
    assert_eq!(
        world.player_respawn_state(7).unwrap(),
        PlayerRespawnState::default()
    );
    assert_eq!(world.player_vitals(7).unwrap().health, 150);

    world.advance_tick();
    world.advance_tick();
    let position_before_death = world.player(7).unwrap().position;
    let revision = world.revision();
    let state = world.apply_player_death(7, 42, &map).unwrap();
    assert_eq!(
        state,
        PlayerRespawnState {
            dead: true,
            respawn_at: Some(temple),
            death_time: Some(2),
            loss_applied: false,
        }
    );
    assert_eq!(world.player_vitals(7).unwrap().health, 0);
    assert!(world.player_conditions(7).unwrap().is_empty());
    assert_eq!(world.player(7).unwrap().position, position_before_death);
    assert_eq!(world.revision(), revision + 1);
    assert_eq!(world.apply_player_death(7, 42, &map).unwrap(), state);
    assert_eq!(world.revision(), revision + 1);
    assert_eq!(
        world.move_player(
            7,
            Position {
                x: position_before_death.x + 1,
                y: position_before_death.y,
                z: position_before_death.z,
            },
        ),
        Err(CoreError::PlayerIsDead(7))
    );
    assert_eq!(world.player(7).unwrap().position, position_before_death);
    assert_eq!(world.revision(), revision + 1);

    assert_eq!(
        world.respawn_player(7).unwrap(),
        PlayerRespawnOutcome {
            player_id: 7,
            position: temple,
            vitals: PlayerVitals::default(),
        }
    );
    assert_eq!(world.player(7).unwrap().position, temple);
    assert_eq!(world.player_vitals(7).unwrap(), PlayerVitals::default());
    assert_eq!(
        world.player_respawn_state(7).unwrap(),
        PlayerRespawnState::default()
    );
    assert_eq!(world.revision(), revision + 2);
    assert_eq!(world.respawn_player(7), Err(CoreError::PlayerIsNotDead(7)));
    assert_eq!(world.revision(), revision + 2);

    world
        .move_player(
            7,
            Position {
                x: temple.x + 1,
                y: temple.y,
                z: temple.z,
            },
        )
        .unwrap();
    world.apply_player_death(7, 42, &map).unwrap();
    world
        .add_player(Player {
            id: 8,
            account_id: 3,
            name: "Druid".to_owned(),
            position: temple,
            level: 8,
            experience: 0,
            skill_points: 0,
        })
        .unwrap();
    let blocked_revision = world.revision();
    assert_eq!(
        world.apply_player_damage(7, 8, 1),
        Err(CoreError::PlayerIsDead(7))
    );
    assert!(world.player_respawn_state(7).unwrap().dead);
    assert_eq!(world.revision(), blocked_revision);
    assert_eq!(
        world.respawn_player(7),
        Err(CoreError::PlayerOccupiesPosition(temple))
    );
    assert!(world.player_respawn_state(7).unwrap().dead);
    assert_eq!(world.revision(), blocked_revision);

    world.remove_player(7).unwrap();
    assert_eq!(
        world.player_respawn_state(7),
        Err(CoreError::UnknownPlayer(7))
    );
}

#[test]
fn lethal_condition_damage_enters_validated_authoritative_death_state() {
    let mut world = WorldState::default();
    world.add_player(player()).unwrap();
    world
        .update_player_vitals(
            7,
            PlayerVitals {
                health: 7,
                ..PlayerVitals::default()
            },
        )
        .unwrap();
    world
        .apply_player_condition(
            7,
            PlayerCondition::new(PlayerConditionKind::Poison, 1, 7, 1).unwrap(),
        )
        .unwrap();
    let temple = Position {
        x: 110,
        y: 120,
        z: 7,
    };
    let mut map = WorldMap::new("condition-death", temple);
    map.set_town(WorldMapTown {
        id: 42,
        name: "Thais".to_owned(),
        temple_position: temple,
    })
    .unwrap();

    assert_eq!(
        world.apply_player_conditions_with_death(7, 0, &map, 1),
        Err(CoreError::PlayerTownUnassigned(7))
    );
    assert_eq!(world.player_vitals(7).unwrap().health, 7);
    assert!(world
        .player_conditions(7)
        .unwrap()
        .contains_key(&PlayerConditionKind::Poison.code()));

    world.advance_tick();
    let (outcome, death_state) = world
        .apply_player_conditions_with_death(7, 42, &map, 1)
        .unwrap();
    assert_eq!(outcome.applied_damage, 7);
    assert_eq!(outcome.remaining_health, 0);
    assert_eq!(
        death_state,
        Some(PlayerRespawnState {
            dead: true,
            respawn_at: Some(temple),
            death_time: Some(1),
            loss_applied: false,
        })
    );
    assert_eq!(world.player_vitals(7).unwrap().health, 0);
    assert!(world.player_conditions(7).unwrap().is_empty());
    let dead_revision = world.revision();
    assert_eq!(
        world
            .apply_player_conditions_with_death(7, 42, &map, 1)
            .unwrap(),
        (
            PlayerConditionOutcome {
                player_id: 7,
                applied_damage: 0,
                remaining_health: 0,
                expired_conditions: 0,
            },
            None,
        )
    );
    assert_eq!(world.revision(), dead_revision);
}


#[test]
fn authoritative_conditions_are_bounded_replacing_and_expire_cleanly() {
    assert_eq!(
        PlayerCondition::new(PlayerConditionKind::Poison, 0, 1, 1),
        Err(CoreError::InvalidPlayerCondition)
    );
    assert_eq!(
        PlayerCondition::new(PlayerConditionKind::Poison, 1, 0, 1),
        Err(CoreError::InvalidPlayerCondition)
    );
    let poison = PlayerCondition::new(PlayerConditionKind::Poison, 2, 7, 5).unwrap();
    let burning = PlayerCondition::new(PlayerConditionKind::Burning, 3, 4, 3).unwrap();
    let mut world = WorldState::default();
    world.add_player(player()).unwrap();
    world
        .update_player_vitals(
            7,
            PlayerVitals {
                health: 18,
                max_health: 150,
                mana: 50,
                max_mana: 50,
                capacity: 40_000,
                magic_level: 0,
            },
        )
        .unwrap();
    assert!(world.apply_player_condition(7, poison).unwrap());
    assert!(!world.apply_player_condition(7, poison).unwrap());
    assert!(world.apply_player_condition(7, burning).unwrap());
    let first = world.apply_player_conditions(7, 2).unwrap();
    assert_eq!(first.applied_damage, 7);
    assert_eq!(first.remaining_health, 11);
    assert_eq!(first.expired_conditions, 0);
    let final_tick = world.apply_player_conditions(7, 3).unwrap();
    assert_eq!(final_tick.applied_damage, 11);
    assert_eq!(final_tick.remaining_health, 0);
    assert_eq!(final_tick.expired_conditions, 2);
    assert!(world.player_conditions(7).unwrap().is_empty());
    world.remove_player(7).unwrap();
    assert_eq!(
        world.apply_player_conditions(7, 1),
        Err(CoreError::UnknownPlayer(7))
    );
}

#[test]
fn persisted_condition_elapsed_progress_resumes_exact_tick_timing() {
    assert_eq!(
        PlayerCondition::from_persisted(PlayerConditionKind::Poison, 2, 7, 0, 5, 2),
        Err(CoreError::InvalidPlayerCondition)
    );
    let mut world = WorldState::default();
    world.add_player(player()).unwrap();
    world
        .apply_player_condition(
            7,
            PlayerCondition::from_persisted(PlayerConditionKind::Poison, 3, 7, 0, 5, 2)
                .unwrap(),
        )
        .unwrap();
    let outcome = world.apply_player_conditions(7, 1).unwrap();
    assert_eq!(outcome.applied_damage, 7);
    assert_eq!(
        world
            .player_conditions(7)
            .unwrap()
            .get(&PlayerConditionKind::Poison.code())
            .unwrap()
            .elapsed_seconds(),
        0
    );
}

#[test]
fn haste_condition_bounds_apply_and_expire_without_damage() {
    // Bounds: zero or oversized bonus rejected, oversized duration rejected.
    assert_eq!(
        PlayerCondition::new_haste(0, 25),
        Err(CoreError::InvalidPlayerCondition)
    );
    assert_eq!(
        PlayerCondition::new_haste(MAX_SPEED_BONUS_PERCENT + 1, 25),
        Err(CoreError::InvalidPlayerCondition)
    );
    assert_eq!(
        PlayerCondition::new_haste(50, MAX_CONDITION_DURATION_SECONDS + 1),
        Err(CoreError::InvalidPlayerCondition)
    );
    assert_eq!(
        PlayerCondition::new(PlayerConditionKind::Haste, 1, 0, 25),
        Err(CoreError::InvalidPlayerCondition)
    );

    let mut world = WorldState::default();
    world.add_player(player()).unwrap();
    world.apply_player_speed_condition(7, 40, 2).unwrap();
    assert_eq!(world.player_speed_bonus_percent(7), 40);

    // One elapsed second leaves the condition active with no damage applied.
    let outcome = world.apply_player_conditions(7, 1).unwrap();
    assert_eq!(outcome.applied_damage, 0);
    assert_eq!(outcome.expired_conditions, 0);
    assert_eq!(world.player_speed_bonus_percent(7), 40);

    // Second elapsed second expires the condition and clears the modifier.
    let outcome = world.apply_player_conditions(7, 1).unwrap();
    assert_eq!(outcome.applied_damage, 0);
    assert_eq!(outcome.expired_conditions, 1);
    assert_eq!(world.player_speed_bonus_percent(7), 0);

    // Persistence round-trip preserves the bonus through the elapsed-remainder path.
    let condition = PlayerCondition::new_haste(30, 10).unwrap();
    world.apply_player_condition(7, condition).unwrap();
    let restored = PlayerCondition::from_persisted(
        PlayerConditionKind::Haste,
        condition.interval_seconds,
        condition.damage,
        condition.speed_bonus_percent,
        condition.remaining_seconds,
        0,
    )
    .unwrap();
    assert_eq!(restored, condition);
    // A persisted haste row with damage must be rejected (per-kind payload discipline).
    assert_eq!(
        PlayerCondition::from_persisted(PlayerConditionKind::Haste, 1, 5, 30, 10, 0),
        Err(CoreError::InvalidPlayerCondition)
    );
    // A persisted DoT row with a speed payload must be rejected.
    assert_eq!(
        PlayerCondition::from_persisted(PlayerConditionKind::Poison, 2, 7, 30, 10, 0),
        Err(CoreError::InvalidPlayerCondition)
    );
}

#[test]
fn death_loss_policy_preserves_documented_configuration_modes() {
    assert_eq!(
        DeathLossPolicy::from_config(-1),
        Ok(DeathLossPolicy::DefaultFormula)
    );
    assert_eq!(DeathLossPolicy::from_config(0), Ok(DeathLossPolicy::Disabled));
    assert_eq!(
        DeathLossPolicy::from_config(10),
        Ok(DeathLossPolicy::FixedPercent(10))
    );
    assert_eq!(
        DeathLossPolicy::from_config(101),
        Err(CoreError::InvalidDeathLossPolicy)
    );
}

fn revision_test_map() -> WorldMap {
    let spawn = Position {
        x: 100,
        y: 100,
        z: 7,
    };
    let mut map = WorldMap::new("revision", spawn);
    map.set_tile(
        spawn,
        WorldMapTile {
            ground_thing_id: 102,
            walkable: true,
        },
    )
    .unwrap();
    map.set_tile_items(
        spawn,
        vec![WorldMapItem {
            server_id: 1988,
            client_thing_id: Some(1988),
            count: 1,
            action_id: Some(7),
            unique_id: Some(8),
            text: Some("read me".into()),
            description: Some("a note".into()),
            teleport_destination: Some(Position {
                x: 101,
                y: 100,
                z: 7,
            }),
            duration: Some(30),
            charges: Some(2),
            children: vec![WorldMapItem {
                server_id: 2000,
                client_thing_id: Some(2000),
                count: 3,
                action_id: None,
                unique_id: None,
                text: None,
                description: None,
                teleport_destination: None,
                duration: None,
                charges: None,
                children: Vec::new(),
            }],
        }],
    )
    .unwrap();

    map
}

#[test]
fn source_map_revision_is_stable_and_changes_with_complete_item_content() {
    let spawn = Position {
        x: 100,
        y: 100,
        z: 7,
    };
    let map = revision_test_map();
    let original = map.source_revision();
    assert_eq!(original, revision_test_map().source_revision());

    let mut changed = revision_test_map();
    changed
        .set_tile_items(
            spawn,
            vec![WorldMapItem {
                server_id: 1988,
                client_thing_id: Some(1988),
                count: 2,
                action_id: Some(7),
                unique_id: Some(8),
                text: Some("read me".into()),
                description: Some("a note".into()),
                teleport_destination: Some(Position {
                    x: 101,
                    y: 100,
                    z: 7,
                }),
                duration: Some(30),
                charges: Some(2),
                children: Vec::new(),
            }],
        )
        .unwrap();
    assert_ne!(original, changed.source_revision());
}

#[test]
fn source_item_identity_is_ordered_revision_bound_and_duplicate_safe() {
    let position = Position {
        x: 100,
        y: 100,
        z: 7,
    };
    let mut map = WorldMap::new("identity", position);
    map.set_tile(
        position,
        WorldMapTile {
            ground_thing_id: 102,
            walkable: true,
        },
    )
    .unwrap();
    let item = |count| WorldMapItem {
        server_id: 1988,
        client_thing_id: Some(1988),
        count,
        action_id: None,
        unique_id: None,
        text: None,
        description: None,
        teleport_destination: None,
        duration: None,
        charges: None,
        children: Vec::new(),
    };
    map.set_tile_items(position, vec![item(1), item(1)])
        .unwrap();

    let first = map.source_item_identity(position, 0).unwrap();
    let second = map.source_item_identity(position, 1).unwrap();
    assert_ne!(first, second);
    assert_eq!(first.position, position);
    assert_eq!(first.item_index, 0);
    assert_eq!(second.item_index, 1);
    assert_eq!(map.source_item_identity(position, 2), None);

    map.set_tile_items(position, vec![item(2), item(1)])
        .unwrap();
    assert_ne!(
        first.map_revision,
        map.source_item_identity(position, 0).unwrap().map_revision
    );
}

#[test]
fn source_item_recovery_rejects_revision_mismatch_without_mutation() {
    let position = Position {
        x: 100,
        y: 100,
        z: 7,
    };
    let mut map = WorldMap::new("recovery", position);
    map.set_tile(
        position,
        WorldMapTile {
            ground_thing_id: 102,
            walkable: true,
        },
    )
    .unwrap();
    map.set_tile_items(
        position,
        vec![WorldMapItem {
            server_id: 1988,
            client_thing_id: Some(1988),
            count: 1,
            action_id: None,
            unique_id: None,
            text: None,
            description: None,
            teleport_destination: None,
            duration: None,
            charges: None,
            children: Vec::new(),
        }],
    )
    .unwrap();
    let mut identity = map.source_item_identity(position, 0).unwrap();
    identity.map_revision = WorldMapSourceRevision(identity.map_revision.0.wrapping_add(1));
    assert!(map.apply_source_item_removals(&[identity]).is_err());
    assert_eq!(map.tile_items(position).unwrap().len(), 1);
}

/// A base requirement scaled by a multiplier in thousandths to the power `exponent`, rounded down
/// and at least one.
fn scaled_requirement(base: u64, milli: u32, exponent: u16) -> u64 {
    let factor = f64::from(milli) / PROGRESSION_MULTIPLIER_SCALE as f64;
    let required = (base as f64 * factor.powi(i32::from(exponent))).floor();
    required.clamp(1.0, u64::MAX as f64) as u64
}

/// The sword tries that `target_level` requires.
fn sword_requirement(milli: u32, target_level: u16) -> u64 {
    scaled_requirement(50, milli, target_level.saturating_sub(MINIMUM_PLAYER_SKILL_LEVEL + 1))
}

/// The spent mana that `target_level` requires.
fn magic_requirement(milli: u32, target_level: u8) -> u64 {
    if target_level == 0 {
        return 0;
    }
    scaled_requirement(1_600, milli, u16::from(target_level - 1))
}

fn sword_table(milli: u32, first_target: u16, count: u16) -> Vec<u64> {
    (0..count).map(|i| sword_requirement(milli, first_target + i)).collect()
}

fn magic_table(milli: u32, first_target: u8, count: u8) -> Vec<u64> {
    (0..count).map(|i| magic_requirement(milli, first_target + i)).collect()
}

#[test]
fn progression_attempts_are_multiplier_driven_and_authoritative() {
    assert_eq!(
        ProgressionMultiplier::new(0),
        Err(CoreError::InvalidProgressionMultiplier(0))
    );
    assert_eq!(
        ProgressionMultiplier::new(MAX_PROGRESSION_MULTIPLIER_MILLI + 1),
        Err(CoreError::InvalidProgressionMultiplier(
            MAX_PROGRESSION_MULTIPLIER_MILLI + 1
        ))
    );
    let multiplier = ProgressionMultiplier::new(1_100).unwrap();
    assert_eq!(sword_requirement(multiplier.milli(), 11), 50);
    assert_eq!(sword_requirement(multiplier.milli(), 12), 55);
    assert_eq!(magic_requirement(multiplier.milli(), 0), 0);
    assert_eq!(magic_requirement(multiplier.milli(), 1), 1_600);
    assert_eq!(magic_requirement(multiplier.milli(), 2), 1_760);

    let mut world = WorldState::default();
    world.add_player(player()).unwrap();
    let revision = world.revision();
    let partial = world
        .apply_player_skill_tries_with(7, PlayerSkill::Sword, 49, &sword_table(1_100, 11, 51))
        .unwrap();
    assert_eq!(partial.gained_levels, 0);
    assert_eq!(partial.progress, SkillProgress::new(10, 98).unwrap());
    assert_eq!(partial.stored_tries, 49);
    assert_eq!(world.revision(), revision + 1);

    let advanced = world
        .apply_player_skill_tries_with(7, PlayerSkill::Sword, 1, &sword_table(1_100, 11, 3))
        .unwrap();
    assert_eq!(advanced.gained_levels, 1);
    assert_eq!(advanced.progress, SkillProgress::new(11, 0).unwrap());
    assert_eq!(advanced.stored_tries, 0);
    assert_eq!(
        world
            .player_progression_attempts(7)
            .unwrap()
            .skill_tries(PlayerSkill::Sword),
        0
    );

    let magic = world.apply_player_magic_mana_with(7, 1_600, &magic_table(1_100, 1, 3)).unwrap();
    assert_eq!(magic.gained_levels, 1);
    assert_eq!(magic.magic_level, 1);
    assert_eq!(magic.stored_mana, 0);
    assert_eq!(world.player_vitals(7).unwrap().magic_level, 1);
    let no_op_revision = world.revision();
    assert_eq!(
        world
            .apply_player_magic_mana_with(7, 0, &magic_table(1_100, 2, 2))
            .unwrap()
            .gained_levels,
        0
    );
    assert_eq!(world.revision(), no_op_revision);

    world.remove_player(7).unwrap();
    assert_eq!(
        world.player_progression_attempts(7),
        Err(CoreError::UnknownPlayer(7))
    );
}

#[test]
fn fixed_percent_death_loss_uses_exact_cumulative_progress_once() {
    let temple = Position {
        x: 110,
        y: 120,
        z: 7,
    };
    let mut map = WorldMap::new("fixed-loss", temple);
    map.set_town(WorldMapTown {
        id: 42,
        name: "Thais".to_owned(),
        temple_position: temple,
    })
    .unwrap();
    let mut world = WorldState::default();
    world
        .add_player(Player {
            experience: 100_000,
            level: level_for_experience(100_000),
            ..player()
        })
        .unwrap();
    let mut skills = PlayerSkills::default();
    skills.set(PlayerSkill::Sword, SkillProgress::new(11, 50).unwrap());
    world
        .replace_player_progression(
            7,
            PlayerProgression {
                vocation: BaseVocation::Knight.id(),
                skills,
            },
        )
        .unwrap();
    world
        .replace_player_progression_attempts(
            7,
            PlayerProgressionAttempts::new([0, 0, 25, 0, 0, 0, 0], 800),
        )
        .unwrap();
    world
        .update_player_vitals(
            7,
            PlayerVitals {
                magic_level: 1,
                ..PlayerVitals::default()
            },
        )
        .unwrap();
    // Every skill of the default progression stands at the minimum level; the sword at 11.
    let mut skill_tables = vec![sword_table(1_000, 11, 2); 7];
    skill_tables[PlayerSkill::Sword.code() as usize] = sword_table(1_000, 11, 3);
    let magic = magic_table(1_000, 1, 3);
    assert_eq!(
        world.apply_fixed_percent_death_loss_from(7, 0, &skill_tables, &magic),
        Err(CoreError::InvalidFixedDeathLossPercent(0))
    );
    assert_eq!(
        world.apply_fixed_percent_death_loss_from(7, 25, &skill_tables, &magic),
        Err(CoreError::PlayerIsNotDead(7))
    );
    world.apply_player_death(7, 42, &map).unwrap();
    let revision = world.revision();
    let outcome = world.apply_fixed_percent_death_loss_from(7, 25, &skill_tables, &magic).unwrap();
    assert_eq!(outcome.experience_lost, 25_000);
    assert_eq!(
        outcome.skill_tries_lost[PlayerSkill::Sword.code() as usize],
        18
    );
    assert_eq!(outcome.magic_mana_lost, 600);
    assert_eq!(world.player(7).unwrap().experience, 75_000);
    assert_eq!(world.player(7).unwrap().level, level_for_experience(75_000));
    assert_eq!(
        world
            .player_progression(7)
            .unwrap()
            .skills
            .skill(PlayerSkill::Sword),
        SkillProgress::new(11, 14).unwrap()
    );
    assert_eq!(
        world
            .player_progression_attempts(7)
            .unwrap()
            .skill_tries(PlayerSkill::Sword),
        7
    );
    assert_eq!(world.player_vitals(7).unwrap().magic_level, 1);
    assert_eq!(
        world.player_progression_attempts(7).unwrap().magic_mana(),
        200
    );
    assert!(world.player_respawn_state(7).unwrap().loss_applied);
    assert_eq!(world.revision(), revision + 1);
    assert_eq!(
        world.apply_fixed_percent_death_loss_from(7, 25, &skill_tables, &magic),
        Err(CoreError::DeathLossAlreadyApplied(7))
    );
    assert_eq!(world.revision(), revision + 1);
    world.respawn_player(7).unwrap();
    assert_eq!(
        world.player_respawn_state(7).unwrap(),
        PlayerRespawnState::default()
    );
}
