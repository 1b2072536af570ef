use forgotten_core::creatures::{FeTfsStaticEntity, StaticCreatureLootEntry, LOOT_CHANCE_SCALE};
use forgotten_core::error::CoreError;
use forgotten_core::geometry::{CardinalDirection, Position};
use forgotten_core::items::{EquipmentSlot, ItemContainer, ItemInstance, PlayerContainer, PlayerContainers, PlayerEquipment};
use forgotten_core::map::{WorldMap, WorldMapItem, WorldMapItemSourceIdentity, WorldMapSourceRevision, WorldMapTile};
use forgotten_core::conditions::{conditions_are_schedulable, ConditionMap, PlayerCondition, PlayerConditionKind};
use forgotten_core::progression::{Player, PlayerSkill, PlayerVitals, SkillProgress};
use forgotten_core::spawns::FeTfsStaticSpawnCollection;
use forgotten_core::text::trim_text;
use forgotten_core::world::WorldState;
use forgotten_core::world::advancement::{advancement_step, rebuild_progress_step};
use forgotten_core::world::trade::TradeItemReference;
use forgotten_core::world::transfers::{GenericInventoryMove, GenericMoveSourceKind, GenericMoveTargetKind, GenericPlacement, PlayerGroundDropSource};
use std::collections::{BTreeMap, BTreeSet};

fn at(x: u16, y: u16) -> Position {
    Position { x, y, z: 7 }
}

fn creature(id: u32, name: &str, position: Position) -> FeTfsStaticEntity {
    FeTfsStaticEntity {
        id,
        name: name.to_owned(),
        name_description: String::new(),
        position,
        look_type: 21,
        head: 0,
        body: 0,
        legs: 0,
        feet: 0,
        addons: 0,
        speed: 134,
        health_percent: 100,
        direction: 2,
    }
}

fn player(id: u64, name: &str, position: Position) -> Player {
    Player { id, account_id: id, name: name.to_owned(), position, level: 8, experience: 4200, skill_points: 0 }
}

fn open_map() -> WorldMap {
    let mut map = WorldMap::new("library-tests", at(100, 100));
    for x in 95..=115 {
        for y in 95..=105 {
            map.set_tile(at(x, y), WorldMapTile { ground_thing_id: 100, walkable: true }).unwrap();
        }
    }
    map
}

#[test]
fn trim_text_strips_unicode_whitespace_on_both_ends() {
    assert_eq!(trim_text("  Rat \n"), "Rat");
    assert_eq!(trim_text("\u{3000}Cave Rat\t"), "Cave Rat");
    assert_eq!(trim_text(" \t "), "");
    assert_eq!(trim_text("Rat"), "Rat");
}

#[test]
fn advancement_steps_level_or_store_exactly() {
    assert_eq!(advancement_step(10, 5, 50), (15, 5, false));
    assert_eq!(advancement_step(10, 40, 50), (0, 0, true));
    assert_eq!(advancement_step(10, 100, 50), (0, 60, true));
    assert_eq!(advancement_step(60, 1, 50), (0, 1, true));
    assert_eq!(rebuild_progress_step(30, 50), None);
    assert_eq!(rebuild_progress_step(60, 50), Some(10));
}

#[test]
fn dynamic_spawns_match_trimmed_names_case_insensitively() {
    let mut world = WorldState::default();
    let collection = FeTfsStaticSpawnCollection::new(vec![creature(0x4000_0001, "Rat", at(104, 100))]).unwrap();
    world.install_static_creatures(&collection).unwrap();
    let map = open_map();

    let first = world.spawn_dynamic_entity(&map, "  rAT ", at(110, 100), 3).unwrap();
    assert_eq!(first, 0x7000_0000);
    let summon = world.static_creature(first).unwrap();
    assert_eq!(summon.position, at(110, 100));
    assert_eq!(summon.direction, 3);
    assert_eq!(summon.name, "Rat");

    // The requested tile is taken now; the next candidate is one step east.
    let second = world.spawn_dynamic_entity(&map, "RAT", at(110, 100), 2).unwrap();
    assert_eq!(second, 0x7000_0001);
    assert_eq!(world.static_creature(second).unwrap().position, at(111, 100));

    assert_eq!(world.spawn_dynamic_entity(&map, " Dragon ", at(110, 100), 2), Err(CoreError::UnknownEntityName("Dragon".to_owned())));
    assert_eq!(world.spawn_dynamic_entity(&map, "  ", at(110, 100), 2), Err(CoreError::EmptyStaticSpawnName));

    let records = world.dynamic_spawn_records();
    assert_eq!(records, vec![(first, "Rat".to_owned(), at(110, 100)), (second, "Rat".to_owned(), at(111, 100))]);
    assert_eq!(world.despawn_dynamic_entity(0x4000_0001), Err(CoreError::UnknownStaticCreature(0x4000_0001)));
    assert_eq!(world.despawn_dynamic_entity(first), Ok(()));
    assert_eq!(world.dynamic_spawn_records().len(), 1);
    assert!(!world.is_static_creature_occupied(at(110, 100)));
}

#[test]
fn restoring_the_same_records_twice_changes_nothing_the_second_time() {
    let mut world = WorldState::default();
    let collection = FeTfsStaticSpawnCollection::with_respawn_intervals(
        vec![creature(1, "Rat", at(104, 100)), creature(2, "Wolf", at(106, 100))],
        BTreeMap::from([(1, 60)]),
    )
    .unwrap();
    world.install_static_creatures(&collection).unwrap();
    world.deactivate_static_creature(1).unwrap();
    let mut records = world.static_creature_runtime_snapshot();
    records[1].position = at(107, 100);

    let first = world.restore_static_creature_runtime(&records).unwrap();
    let revision = world.revision();
    let second = world.restore_static_creature_runtime(&records).unwrap();
    assert_eq!(first, second);
    assert_eq!(first.restored, 2);
    assert_eq!(world.revision(), revision);
    assert_eq!(world.static_creature(2).unwrap().position, at(107, 100));
    assert!(world.is_static_creature_occupied(at(107, 100)));
    assert!(!world.is_static_creature_occupied(at(106, 100)));
}

#[test]
fn restore_rejects_records_before_changing_anything() {
    let mut world = WorldState::default();
    let collection = FeTfsStaticSpawnCollection::new(vec![creature(1, "Rat", at(104, 100))]).unwrap();
    world.install_static_creatures(&collection).unwrap();
    let mut records = world.static_creature_runtime_snapshot();
    records[0].health_percent = 101;
    let revision = world.revision();
    assert_eq!(world.restore_static_creature_runtime(&records), Err(CoreError::InvalidStaticCreatureHealthPercent(101)));
    records[0].health_percent = 50;
    let duplicate = vec![records[0], records[0]];
    assert_eq!(world.restore_static_creature_runtime(&duplicate), Err(CoreError::DuplicateStaticSpawnId(1)));
    records[0].reactivation_remaining_seconds = Some(5);
    assert_eq!(
        world.restore_static_creature_runtime(&records),
        Err(CoreError::InvalidStaticCreatureReactivationDelay { id: 1, remaining_seconds: 5, interval_seconds: 0 })
    );
    assert_eq!(world.revision(), revision);
    assert_eq!(world.static_creature_health_percent(1), Ok(100));
}

#[test]
fn moving_a_creature_moves_its_occupancy() {
    let mut world = WorldState::default();
    let collection = FeTfsStaticSpawnCollection::new(vec![creature(1, "Rat", at(104, 100))]).unwrap();
    world.install_static_creatures(&collection).unwrap();
    let map = open_map();
    assert!(world.is_static_creature_occupied(at(104, 100)));
    assert_eq!(world.move_static_creature_cardinal(1, CardinalDirection::East, &map), Ok((at(104, 100), at(105, 100))));
    assert!(world.is_static_creature_occupied(at(105, 100)));
    assert!(!world.is_static_creature_occupied(at(104, 100)));
    world.deactivate_static_creature(1).unwrap();
    assert!(!world.is_static_creature_occupied(at(105, 100)));
    assert_eq!(world.active_static_creature_count(), 0);
    assert_eq!(world.static_creature_count(), 1);
}

#[test]
fn loot_counts_stay_inside_declared_bounds_for_many_seeds() {
    let mut world = WorldState::default();
    let collection = FeTfsStaticSpawnCollection::with_loot_tables(
        vec![creature(1, "Rat", at(104, 100))],
        BTreeMap::new(),
        BTreeMap::new(),
        BTreeMap::new(),
        BTreeMap::new(),
        BTreeSet::new(),
        BTreeMap::from([(
            1,
            vec![
                StaticCreatureLootEntry { item_id: 2148, chance: LOOT_CHANCE_SCALE, min_count: 3, max_count: 7 },
                StaticCreatureLootEntry { item_id: 2666, chance: LOOT_CHANCE_SCALE / 2, min_count: 1, max_count: 1 },
            ],
        )]),
    )
    .unwrap();
    world.install_static_creatures(&collection).unwrap();
    for seed in 0..200u64 {
        let roll = world.roll_static_creature_loot(1, seed).unwrap();
        assert!(roll.items.len() <= 2);
        assert_eq!(roll.items[0].0, 2148);
        assert!((3..=7).contains(&roll.items[0].1));
        if roll.items.len() == 2 {
            assert_eq!(roll.items[1], (2666, 1));
        }
        assert_eq!(roll, world.roll_static_creature_loot(1, seed).unwrap());
    }
}

#[test]
fn cancelling_a_fresh_trade_by_its_initiator_restores_the_world() {
    let mut world = WorldState::default();
    world.add_player(player(1, "Alice", at(100, 100))).unwrap();
    world.add_player(player(2, "Bob", at(101, 100))).unwrap();
    let revision = world.revision();
    world.open_player_trade(1, 2).unwrap();
    assert!(world.player_trade(2).is_some());
    assert_eq!(world.cancel_player_trade(1), Some(2));
    assert!(world.player_trade(1).is_none());
    assert!(world.player_trade(2).is_none());
    assert_eq!(world.revision(), revision);
}

#[test]
fn trade_delivery_without_room_names_the_receiver_and_changes_nothing() {
    let mut world = WorldState::default();
    world.add_player_with_vitals(player(1, "Alice", at(100, 100)), PlayerVitals::default()).unwrap();
    world.add_player_with_vitals(player(2, "Bob", at(101, 100)), PlayerVitals::default()).unwrap();
    let mut containers = world.player_containers(2).unwrap().duplicate();
    let mut backpack = PlayerContainer::new(0, ItemInstance::new(2854, 1).unwrap(), "Backpack", false, 4).unwrap();
    backpack.items.insert(ItemInstance::new(2392, 1).unwrap()).unwrap();
    containers.insert(backpack).unwrap();
    world.replace_player_containers(2, containers).unwrap();

    world.open_player_trade(1, 2).unwrap();
    world.stage_trade_item(2, TradeItemReference { container_id: 0, item_index: 0 }).unwrap();
    world.accept_player_trade(1).unwrap();
    assert_eq!(world.accept_player_trade(2), Ok(true));
    let revision = world.revision();
    assert_eq!(
        world.execute_player_trade(1).unwrap_err(),
        CoreError::TradeValidationFailed("player 1 has no space for a traded item".to_owned())
    );
    assert_eq!(world.revision(), revision);
    assert_eq!(world.player_containers(2).unwrap().container(0).unwrap().items.len(), 1);
    assert!(world.player_trade(1).is_some());
}

fn plain_item(server_id: u16) -> WorldMapItem {
    WorldMapItem {
        server_id,
        client_thing_id: None,
        count: 1,
        action_id: None,
        unique_id: None,
        text: None,
        description: None,
        teleport_destination: None,
        duration: None,
        charges: None,
        children: Vec::new(),
    }
}

fn journal_map() -> WorldMap {
    let mut map = WorldMap::new("journal", at(100, 100));
    map.set_tile(at(100, 100), WorldMapTile { ground_thing_id: 102, walkable: true }).unwrap();
    map.set_tile_items(at(100, 100), vec![plain_item(1), plain_item(2), plain_item(3)]).unwrap();
    map.set_tile_items(at(101, 100), vec![plain_item(4), plain_item(5)]).unwrap();
    map
}

fn invalid_map_text(r: Result<(), CoreError>) -> String {
    match r {
        Err(CoreError::InvalidMap(text)) => text,
        other => panic!("expected an invalid-map refusal, got {:?}", other),
    }
}

#[test]
fn empty_map_revision_is_the_fnv_digest_of_its_encoding() {
    let map = WorldMap::new("a", at(100, 100));
    assert_eq!(map.source_revision(), WorldMapSourceRevision(18191460107053513224));
}

#[test]
fn journal_removes_named_items_on_each_tile_and_keeps_order() {
    let mut map = journal_map();
    let a = map.source_item_identity(at(100, 100), 2).unwrap();
    let b = map.source_item_identity(at(100, 100), 0).unwrap();
    let c = map.source_item_identity(at(101, 100), 1).unwrap();
    assert_eq!(map.apply_source_item_removals(&[a, b, c]), Ok(()));
    let first: Vec<u16> = map.tile_items(at(100, 100)).unwrap().iter().map(|i| i.server_id).collect();
    let second: Vec<u16> = map.tile_items(at(101, 100)).unwrap().iter().map(|i| i.server_id).collect();
    assert_eq!(first, vec![2]);
    assert_eq!(second, vec![4]);
}

#[test]
fn journal_refusals_name_the_first_fault_and_change_nothing() {
    let mut map = journal_map();
    let good = map.source_item_identity(at(100, 100), 1).unwrap();
    let revision = good.map_revision;
    let missing_list = WorldMapItemSourceIdentity { map_revision: revision, position: at(105, 100), item_index: 0 };
    let missing_item = WorldMapItemSourceIdentity { map_revision: revision, position: at(101, 100), item_index: 2 };
    assert_eq!(
        invalid_map_text(map.apply_source_item_removals(&[good, good])),
        "map-item journal repeats one source item identity"
    );
    assert_eq!(
        invalid_map_text(map.apply_source_item_removals(&[good, missing_list])),
        "map-item journal references a missing tile item list"
    );
    assert_eq!(
        invalid_map_text(map.apply_source_item_removals(&[missing_item, missing_list])),
        "map-item journal references a missing ordered source item"
    );
    let stale = WorldMapItemSourceIdentity { map_revision: WorldMapSourceRevision(revision.0 ^ 1), ..good };
    assert_eq!(
        invalid_map_text(map.apply_source_item_removals(&[stale])),
        "map-item journal source revision does not match the loaded map"
    );
    assert_eq!(map.tile_items(at(100, 100)).unwrap().len(), 3);
    assert_eq!(map.source_revision(), revision);
}

#[test]
fn item_identity_is_absent_beyond_the_list_or_off_the_tiles() {
    let map = journal_map();
    assert_eq!(map.source_item_identity(at(100, 100), 3), None);
    assert_eq!(map.source_item_identity(at(102, 100), 0), None);
    let id = map.source_item_identity(at(101, 100), 1).unwrap();
    assert_eq!(id.map_revision, map.source_revision());
    assert_eq!(id.item_index, 1);
}

#[test]
fn waypoints_are_listed_by_name_whatever_the_naming_order() {
    let mut first = WorldMap::new("waypoints", at(100, 100));
    first.set_waypoint("temple", at(100, 100)).unwrap();
    first.set_waypoint("depot", at(101, 100)).unwrap();
    first.set_waypoint("zoo", at(102, 100)).unwrap();
    first.set_waypoint("Ábaco", at(103, 100)).unwrap();
    first.set_waypoint("Zebra", at(104, 100)).unwrap();
    let names: Vec<&str> = first.waypoints().iter().map(|(n, _)| *n).collect();
    assert_eq!(names, vec!["Zebra", "depot", "temple", "zoo", "Ábaco"]);

    let mut second = WorldMap::new("waypoints", at(100, 100));
    second.set_waypoint("Ábaco", at(103, 100)).unwrap();
    second.set_waypoint("zoo", at(102, 100)).unwrap();
    second.set_waypoint("Zebra", at(104, 100)).unwrap();
    second.set_waypoint("depot", at(101, 100)).unwrap();
    second.set_waypoint("temple", at(109, 100)).unwrap();
    second.set_waypoint("temple", at(100, 100)).unwrap();
    assert_eq!(second.waypoints().len(), 5);
    assert_eq!(second.waypoint("temple"), Some(at(100, 100)));
    assert_eq!(first.source_revision(), second.source_revision());
}

#[test]
fn mutable_item_access_writes_back_into_the_container() {
    let mut container = ItemContainer::new(4).unwrap();
    container.insert(ItemInstance::new(3031, 10).unwrap()).unwrap();
    container.item_mut(0).unwrap().count = 55;
    assert_eq!(container.item(0).unwrap().count, 55);
    assert!(container.item_mut(1).is_none());
}

#[test]
fn mutable_equipment_access_writes_back_into_the_slot() {
    let mut equipment = PlayerEquipment::new();
    equipment.equip(EquipmentSlot::Head, ItemInstance::new(3353, 1).unwrap());
    equipment.item_mut(EquipmentSlot::Head).unwrap().server_id = 3354;
    assert_eq!(equipment.item(EquipmentSlot::Head).unwrap().server_id, 3354);
    assert!(equipment.item_mut(EquipmentSlot::Neck).is_none());
    assert!(equipment.item(EquipmentSlot::Neck).is_none());
}

#[test]
fn mutable_window_access_writes_back_into_the_windows() {
    let mut containers = PlayerContainers::new();
    let backpack = PlayerContainer::new(3, ItemInstance::new(2854, 1).unwrap(), "Backpack", false, 20).unwrap();
    containers.insert(backpack).unwrap();
    containers.container_mut(3).unwrap().items.insert(ItemInstance::new(3031, 7).unwrap()).unwrap();
    assert_eq!(containers.container(3).unwrap().items.item(0).unwrap().count, 7);
    assert!(containers.container_mut(4).is_none());
}

#[test]
fn mutable_trade_access_reaches_the_session_from_either_side() {
    let mut world = WorldState::default();
    world.add_player_with_vitals(player(1, "Alice", at(100, 100)), PlayerVitals::default()).unwrap();
    world.add_player_with_vitals(player(2, "Bob", at(101, 100)), PlayerVitals::default()).unwrap();
    world.add_player_with_vitals(player(3, "Carol", at(102, 100)), PlayerVitals::default()).unwrap();
    world.open_player_trade(1, 2).unwrap();
    world.active_trade_entry_mut(2).unwrap().counterparty_accepted = true;
    assert_eq!(world.active_trade_entry_mut(1).unwrap().initiator, 1);
    assert!(world.player_trade(1).unwrap().counterparty_accepted);
    assert_eq!(world.active_trade_entry_mut(3).err(), Some(CoreError::NoActiveTrade(3)));
}

fn party_world(n: u64) -> WorldState {
    let mut world = WorldState::default();
    for id in 1..=n {
        world.add_player_with_vitals(player(id, &format!("P{}", id), at(100 + id as u16, 100)), PlayerVitals::default()).unwrap();
    }
    world
}

#[test]
fn accepting_one_invitation_dissolves_other_invitation_only_parties() {
    let mut world = party_world(3);
    world.invite_to_party(1, 3).unwrap();
    world.invite_to_party(2, 3).unwrap();
    assert_eq!(world.player_party_leader(2), Ok(Some(2)));
    world.accept_party_invitation(3, 1).unwrap();
    assert_eq!(world.player_party_leader(3), Ok(Some(1)));
    assert_eq!(world.player_party_leader(2), Ok(None));
    assert_eq!(world.player_party_members(1), Ok(vec![3]));
}

#[test]
fn a_leader_leaving_the_world_hands_the_party_to_the_lowest_member() {
    let mut world = party_world(4);
    world.invite_to_party(2, 4).unwrap();
    world.invite_to_party(2, 3).unwrap();
    world.accept_party_invitation(4, 2).unwrap();
    world.accept_party_invitation(3, 2).unwrap();
    world.invite_to_party(1, 2).unwrap_err();
    world.remove_player(2).unwrap();
    assert_eq!(world.player_party_leader(3), Ok(Some(3)));
    assert_eq!(world.player_party_leader(4), Ok(Some(3)));
    assert_eq!(world.player_party_members(3), Ok(vec![4]));
}

#[test]
fn a_given_identity_removes_exactly_its_item() {
    let mut map = journal_map();
    let id = map.source_item_identity(at(100, 100), 1).unwrap();
    map.apply_source_item_removals(&[id]).unwrap();
    let first: Vec<u16> = map.tile_items(at(100, 100)).unwrap().iter().map(|i| i.server_id).collect();
    let second: Vec<u16> = map.tile_items(at(101, 100)).unwrap().iter().map(|i| i.server_id).collect();
    assert_eq!(first, vec![1, 3]);
    assert_eq!(second, vec![4, 5]);
}

#[test]
fn dynamic_spawns_skip_tiles_that_are_not_walkable() {
    let mut world = WorldState::default();
    let collection = FeTfsStaticSpawnCollection::new(vec![creature(0x4000_0001, "Rat", at(104, 100))]).unwrap();
    world.install_static_creatures(&collection).unwrap();
    let mut map = open_map();
    map.set_tile(at(110, 100), WorldMapTile { ground_thing_id: 100, walkable: false }).unwrap();
    map.set_tile(at(111, 100), WorldMapTile { ground_thing_id: 100, walkable: false }).unwrap();
    let id = world.spawn_dynamic_entity(&map, "rat", at(110, 100), 0).unwrap();
    assert_eq!(world.static_creature(id).unwrap().position, at(109, 100));
    let off_map = WorldMap::new("empty", at(0, 0));
    assert_eq!(world.spawn_dynamic_entity(&off_map, "rat", at(110, 100), 0), Err(CoreError::SpawnPositionRejected(at(110, 100))));
}

fn give_backpack(world: &mut WorldState, owner: u64, items: Vec<ItemInstance>) {
    let mut containers = world.player_containers(owner).unwrap().duplicate();
    let mut backpack = PlayerContainer::new(0, ItemInstance::new(2854, 1).unwrap(), "Backpack", false, 20).unwrap();
    for item in items {
        backpack.items.insert(item).unwrap();
    }
    containers.insert(backpack).unwrap();
    world.replace_player_containers(owner, containers).unwrap();
}

#[test]
fn an_equipment_swap_puts_the_displaced_item_into_the_vacated_slot() {
    let mut world = party_world(1);
    let mut equipment = PlayerEquipment::new();
    equipment.equip(EquipmentSlot::RightHand, ItemInstance::new(3264, 1).unwrap());
    equipment.equip(EquipmentSlot::LeftHand, ItemInstance::new(3409, 1).unwrap());
    world.replace_player_equipment(1, equipment).unwrap();
    let outcome = world.execute_generic_inventory_move(1, GenericInventoryMove {
        source_kind: GenericMoveSourceKind::Equipment { slot: EquipmentSlot::RightHand },
        source_count: None,
        target: GenericMoveTargetKind::Equipment { slot: EquipmentSlot::LeftHand, allow_swap: true },
    }).unwrap();
    assert_eq!(outcome.placement, GenericPlacement::Swapped { displaced: ItemInstance::new(3409, 1).unwrap() });
    let equipment = world.player_equipment(1).unwrap();
    assert_eq!(equipment.item(EquipmentSlot::LeftHand).unwrap().server_id, 3264);
    assert_eq!(equipment.item(EquipmentSlot::RightHand).unwrap().server_id, 3409);
}

#[test]
fn a_partial_equipment_swap_is_refused_without_losing_anything() {
    let mut world = party_world(1);
    let mut equipment = PlayerEquipment::new();
    equipment.equip(EquipmentSlot::RightHand, ItemInstance::new(3031, 10).unwrap());
    equipment.equip(EquipmentSlot::LeftHand, ItemInstance::new(3409, 1).unwrap());
    world.replace_player_equipment(1, equipment).unwrap();
    let revision = world.revision();
    let refused = world.execute_generic_inventory_move(1, GenericInventoryMove {
        source_kind: GenericMoveSourceKind::Equipment { slot: EquipmentSlot::RightHand },
        source_count: Some(4),
        target: GenericMoveTargetKind::Equipment { slot: EquipmentSlot::LeftHand, allow_swap: true },
    });
    assert_eq!(refused.err(), Some(CoreError::OccupiedEquipmentSlot { player_id: 1, slot: EquipmentSlot::LeftHand }));
    assert_eq!(world.revision(), revision);
    assert_eq!(world.player_equipment(1).unwrap().item(EquipmentSlot::RightHand).unwrap().count, 10);
}

#[test]
fn dropping_part_of_a_content_stack_keeps_the_rest_in_place() {
    let mut world = party_world(1);
    let mut bag = ItemInstance::new(2853, 1).unwrap();
    bag.insert_content(ItemInstance::new(3031, 5).unwrap()).unwrap();
    give_backpack(&mut world, 1, vec![bag]);
    let outcome = world.take_player_stack_for_ground_drop(1,
        PlayerGroundDropSource::ContainerContent { container_id: 0, item_index: 0, content_index: 0 }, 2).unwrap();
    assert_eq!(outcome.moved_item.count, 2);
    assert_eq!(outcome.source_remaining_count, Some(3));
    let bag = world.player_containers(1).unwrap().container(0).unwrap().items.item(0).unwrap().duplicate();
    assert_eq!(bag.contents().len(), 1);
    assert_eq!(bag.contents()[0].count, 3);
    let all = world.take_player_stack_for_ground_drop(1,
        PlayerGroundDropSource::ContainerContent { container_id: 0, item_index: 0, content_index: 0 }, 3).unwrap();
    assert_eq!(all.source_remaining_count, None);
    assert_eq!(world.player_containers(1).unwrap().container(0).unwrap().items.item(0).unwrap().contents().len(), 0);
}

#[test]
fn counterparty_staging_resets_both_acceptances() {
    let mut world = party_world(2);
    give_backpack(&mut world, 2, vec![ItemInstance::new(3031, 1).unwrap(), ItemInstance::new(2160, 1).unwrap()]);
    world.open_player_trade(1, 2).unwrap();
    world.accept_player_trade(1).unwrap();
    world.accept_player_trade(2).unwrap();
    world.stage_trade_item(2, TradeItemReference { container_id: 0, item_index: 0 }).unwrap();
    let session = world.player_trade(2).unwrap().duplicate();
    assert!(!session.initiator_accepted);
    assert!(!session.counterparty_accepted);
}

#[test]
fn items_staged_from_one_window_are_the_items_traded() {
    let mut world = party_world(2);
    give_backpack(&mut world, 1, vec![ItemInstance::new(3031, 1).unwrap(), ItemInstance::new(2160, 1).unwrap(),
        ItemInstance::new(2392, 1).unwrap()]);
    give_backpack(&mut world, 2, vec![]);
    world.open_player_trade(1, 2).unwrap();
    world.stage_trade_item(1, TradeItemReference { container_id: 0, item_index: 0 }).unwrap();
    world.stage_trade_item(1, TradeItemReference { container_id: 0, item_index: 2 }).unwrap();
    world.accept_player_trade(1).unwrap();
    world.accept_player_trade(2).unwrap();
    let done = world.execute_player_trade(1).unwrap();
    let gave: Vec<u16> = done.initiator_gave.iter().map(|i| i.server_id).collect();
    assert_eq!(gave, vec![3031, 2392]);
    let left: Vec<u16> = world.player_containers(1).unwrap().container(0).unwrap().items.iter().iter().map(|i| i.server_id).collect();
    assert_eq!(left, vec![2160]);
    let got: Vec<u16> = world.player_containers(2).unwrap().container(0).unwrap().items.iter().iter().map(|i| i.server_id).collect();
    assert_eq!(got, vec![3031, 2392]);
}

#[test]
fn a_snapshot_restored_onto_a_fresh_world_snapshots_back_the_same() {
    let collection = FeTfsStaticSpawnCollection::with_respawn_intervals(
        vec![creature(1, "Rat", at(104, 100)), creature(2, "Wolf", at(106, 100)), creature(3, "Bear", at(108, 102))],
        BTreeMap::from([(1, 60)]),
    )
    .unwrap();
    let map = open_map();
    let mut first = WorldState::default();
    first.install_static_creatures(&collection).unwrap();
    first.deactivate_static_creature(1).unwrap();
    first.move_static_creature_cardinal(2, CardinalDirection::South, &map).unwrap();
    let records = first.static_creature_runtime_snapshot();

    let mut second = WorldState::default();
    second.install_static_creatures(&collection).unwrap();
    let summary = second.restore_static_creature_runtime(&records).unwrap();
    assert_eq!(summary.restored, 3);
    assert_eq!(summary.ignored_unknown, 0);
    assert_eq!(second.static_creature_runtime_snapshot(), records);
    assert_eq!(second.static_creature(2).unwrap().position, at(106, 101));
}

#[test]
fn crowded_plans_never_share_a_destination() {
    let mut entities = Vec::new();
    let mut id = 1;
    for x in 100..=102 {
        for y in 99..=101 {
            if (x, y) != (101, 100) {
                entities.push(creature(id, "Rat", at(x, y)));
                id += 1;
            }
        }
    }
    let collection = FeTfsStaticSpawnCollection::new(entities).unwrap();
    let mut world = WorldState::default();
    world.install_static_creatures(&collection).unwrap();
    world.add_player(player(7, "Knight", at(103, 100))).unwrap();
    let map = open_map();
    let batch = world.plan_static_creature_moves(forgotten_core::creatures::StaticCreatureDecisionPolicy::ClockwiseAdjacent, &map);
    assert_eq!(batch.decisions.len() + batch.skipped, world.active_static_creature_count());
    let mut destinations = BTreeSet::new();
    let mut moved = BTreeSet::new();
    for decision in &batch.decisions {
        let from = world.static_creature(decision.creature_id).unwrap().position;
        let to = from.step(decision.direction).unwrap();
        assert!(map.is_walkable(to));
        assert_ne!(to, at(103, 100));
        assert!(destinations.insert(to.key()));
        moved.insert(decision.creature_id);
    }
    for id in 1..id {
        if !moved.contains(&id) {
            let position = world.static_creature(id).unwrap().position;
            assert!(!destinations.contains(&position.key()));
        }
    }
    assert!(!batch.decisions.is_empty());
}

#[test]
fn registration_reads_back_and_refuses_a_creature_tile() {
    let mut world = WorldState::default();
    let collection = FeTfsStaticSpawnCollection::new(vec![creature(1, "Rat", at(104, 100))]).unwrap();
    world.install_static_creatures(&collection).unwrap();
    let revision = world.revision();
    assert_eq!(
        world.add_player(player(7, "Knight", at(104, 100))),
        Err(CoreError::StaticCreatureOccupiesPosition(at(104, 100)))
    );
    assert_eq!(world.revision(), revision);
    world.add_player(player(7, "Knight", at(105, 100))).unwrap();
    assert_eq!(world.player(7).unwrap().position, at(105, 100));
    assert_eq!(world.player_vitals(7).unwrap(), PlayerVitals::default());
    assert!(world.player_conditions(7).unwrap().is_empty());
    assert!(!world.player_respawn_state(7).unwrap().dead);
    assert_eq!(world.revision(), revision + 1);
}

#[test]
fn a_zero_interval_condition_is_not_schedulable() {
    let poison = PlayerCondition::new(PlayerConditionKind::Poison, 2, 5, 10).unwrap();
    let mut conditions = ConditionMap::new();
    assert!(conditions_are_schedulable(&conditions));
    conditions.insert(poison.kind.code(), poison);
    assert!(conditions_are_schedulable(&conditions));
    let mut broken = poison;
    broken.interval_seconds = 0;
    conditions.insert(broken.kind.code(), broken);
    assert!(!conditions_are_schedulable(&conditions));
}

#[test]
fn skill_tries_stop_where_the_requirement_table_ends() {
    let mut world = WorldState::default();
    world.add_player(player(7, "Knight", at(100, 100))).unwrap();
    let outcome = world.apply_player_skill_tries_with(7, PlayerSkill::Sword, 130, &vec![50, 55]).unwrap();
    assert_eq!(outcome.gained_levels, 2);
    assert_eq!(outcome.progress.level, 12);
    // Past the last requirement given nothing more can be counted.
    assert_eq!(outcome.stored_tries, 0);
    assert_eq!(outcome.progress, SkillProgress::new(12, 0).unwrap());
    let more = world.apply_player_skill_tries_with(7, PlayerSkill::Sword, 10, &vec![60]).unwrap();
    assert_eq!(more.gained_levels, 0);
    assert_eq!(more.stored_tries, 10);
    assert_eq!(more.progress, SkillProgress::new(12, 16).unwrap());
    assert_eq!(world.apply_player_skill_tries_with(9, PlayerSkill::Sword, 1, &vec![1]), Err(CoreError::UnknownPlayer(9)));
}

#[test]
fn magic_mana_can_cross_several_levels_at_once() {
    let mut world = WorldState::default();
    world.add_player(player(7, "Knight", at(100, 100))).unwrap();
    let outcome = world.apply_player_magic_mana_with(7, 5_000, &vec![1_600, 1_760, 1_936]).unwrap();
    assert_eq!(outcome.gained_levels, 2);
    assert_eq!(outcome.magic_level, 2);
    assert_eq!(outcome.stored_mana, 1_640);
    assert_eq!(world.player_vitals(7).unwrap().magic_level, 2);
}

#[test]
fn a_deactivated_melee_creature_restarts_from_its_own_snapshot() {
    let collection = FeTfsStaticSpawnCollection::with_runtime_metadata(
        vec![creature(1, "Rat", at(104, 100)), creature(2, "Wolf", at(106, 100))],
        BTreeMap::from([(1, 60)]),
        BTreeMap::new(),
        BTreeMap::from([(1, 2_000), (2, 1_500)]),
    )
    .unwrap();
    let mut first = WorldState::default();
    first.install_static_creatures(&collection).unwrap();
    first.advance_ticks(3);
    first.deactivate_static_creature(1).unwrap();
    let records = first.static_creature_runtime_snapshot();
    assert_eq!(records[0].direct_melee_cooldown_remaining_ticks, None);
    assert_eq!(records[0].reactivation_remaining_seconds, Some(60));
    assert_eq!(records[1].direct_melee_cooldown_remaining_ticks, Some(0));

    let mut second = WorldState::default();
    second.install_static_creatures(&collection).unwrap();
    let summary = second.restore_static_creature_runtime(&records).unwrap();
    assert_eq!(summary.restored, 2);
    assert_eq!(summary.ignored_unknown, 0);
    assert_eq!(second.static_creature_runtime_snapshot(), records);
}
