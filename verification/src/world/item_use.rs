//! Validation of map-item use requests against the authoritative world. Validation never mutates.

use vstd::prelude::*;
use crate::error::CoreError;
use crate::geometry::{Position, position_key, spec_adjacent};
use crate::map::{WorldMap, WorldMapItem, WorldMapView};
use crate::interaction::{
    PlayerItemUseIntent, PlayerItemUseOutcome, PlayerItemUseExIntent, PlayerItemUseExOutcome,
    PlayerItemUseCreatureIntent, PlayerItemUseCreatureOutcome, PlayerItemUseCreatureTarget,
    PlayerItemUseCreatureTargetOutcome,
};
use crate::world::{WorldState, WorldModel};
use crate::world::lifecycle::dead_state;

verus! {

broadcast use {vstd::std_specs::btree::group_btree_axioms, vstd::laws_cmp::group_laws_cmp};

/// Same tile or an adjacent tile.
pub open spec fn within_reach(a: Position, b: Position) -> bool {
    a == b || spec_adjacent(a, b)
}

/// The outcome of a validated map item.
pub open spec fn item_outcome(intent: PlayerItemUseIntent, item: WorldMapItem) -> PlayerItemUseOutcome {
    PlayerItemUseOutcome {
        player_id: intent.player_id,
        position: intent.position,
        stack_index: intent.stack_index,
        server_id: item.server_id,
        count: item.count,
        action_id: item.action_id,
        unique_id: item.unique_id,
        has_text: match item.text { Some(t) => t@.len() > 0, None => false },
        charges: item.charges,
        teleport_destination: item.teleport_destination,
    }
}

/// The result of validating one item-use intent.
pub open spec fn item_use_result(m: WorldModel, map: WorldMapView, intent: PlayerItemUseIntent)
    -> Result<PlayerItemUseOutcome, CoreError> {
    let k = position_key(intent.position);
    if intent.expected_server_id == 0 {
        Err(CoreError::InvalidItemUseIntent)
    } else if !m.players.contains_key(intent.player_id) {
        Err(CoreError::UnknownPlayer(intent.player_id))
    } else if !within_reach(m.players[intent.player_id].position, intent.position) {
        Err(CoreError::ItemUseOutOfRange { player_id: intent.player_id, from: m.players[intent.player_id].position,
            to: intent.position })
    } else if !map.tiles.contains_key(k) {
        Err(CoreError::MissingMapTile(intent.position))
    } else if !(map.tile_items.contains_key(k) && intent.stack_index < map.tile_items[k].len()
        && map.tile_items[k][intent.stack_index as int].server_id == intent.expected_server_id) {
        Err(CoreError::UnknownMapItem { position: intent.position, stack_index: intent.stack_index,
            expected_server_id: intent.expected_server_id })
    } else {
        Ok(item_outcome(intent, map.tile_items[k][intent.stack_index as int]))
    }
}

impl WorldState {
    /// Validates one top-level map item that the player stands on or next to.
    pub fn validate_player_item_use(&self, map: &WorldMap, intent: PlayerItemUseIntent)
        -> (r: Result<PlayerItemUseOutcome, CoreError>)
        ensures
            r == item_use_result(self@, map.view(), intent),
    {
        if intent.expected_server_id == 0 {
            return Err(CoreError::InvalidItemUseIntent);
        }
        let player_position = match self.players.get(&intent.player_id) {
            Some(p) => p.position,
            None => { return Err(CoreError::UnknownPlayer(intent.player_id)); },
        };
        if player_position != intent.position && !player_position.is_adjacent_to(intent.position) {
            return Err(CoreError::ItemUseOutOfRange { player_id: intent.player_id, from: player_position, to: intent.position });
        }
        if map.tile(intent.position).is_none() {
            return Err(CoreError::MissingMapTile(intent.position));
        }
        let unknown = CoreError::UnknownMapItem {
            position: intent.position,
            stack_index: intent.stack_index,
            expected_server_id: intent.expected_server_id,
        };
        let items = match map.tile_items(intent.position) {
            Some(items) => items,
            None => { return Err(unknown); },
        };
        let index = intent.stack_index as usize;
        if index >= items.len() {
            return Err(unknown);
        }
        let item = &items[index];
        if item.server_id != intent.expected_server_id {
            return Err(unknown);
        }
        let has_text = match &item.text {
            Some(t) => !t.as_str().is_empty(),
            None => false,
        };
        Ok(PlayerItemUseOutcome {
            player_id: intent.player_id,
            position: intent.position,
            stack_index: intent.stack_index,
            server_id: item.server_id,
            count: item.count,
            action_id: item.action_id,
            unique_id: item.unique_id,
            has_text,
            charges: item.charges,
            teleport_destination: item.teleport_destination,
        })
    }

    /// Validates both halves of an item-on-item request.
    pub fn validate_player_item_use_ex(&self, map: &WorldMap, intent: PlayerItemUseExIntent)
        -> (r: Result<PlayerItemUseExOutcome, CoreError>)
        ensures
            match item_use_result(self@, map.view(), intent.source) {
                Err(e) => r == Err::<PlayerItemUseExOutcome, CoreError>(e),
                Ok(source) => match item_use_result(self@, map.view(), intent.target) {
                    Err(e) => r == Err::<PlayerItemUseExOutcome, CoreError>(e),
                    Ok(target) => r == Ok::<PlayerItemUseExOutcome, CoreError>(PlayerItemUseExOutcome { source, target }),
                },
            },
    {
        let source = self.validate_player_item_use(map, intent.source)?;
        let target = self.validate_player_item_use(map, intent.target)?;
        Ok(PlayerItemUseExOutcome { source, target })
    }

    /// Validates a map item against a living player or an active static creature within reach.
    pub fn validate_player_item_use_creature(&self, map: &WorldMap, intent: PlayerItemUseCreatureIntent)
        -> (r: Result<PlayerItemUseCreatureOutcome, CoreError>)
        ensures
            r is Ok ==> item_use_result(self@, map.view(), intent.source) == Ok::<PlayerItemUseOutcome, CoreError>(r->Ok_0.source)
                && ({
                    let from = self@.players[intent.source.player_id].position;
                    match r->Ok_0.target {
                        PlayerItemUseCreatureTargetOutcome::Player { player_id, position } => {
                            &&& intent.target == PlayerItemUseCreatureTarget::Player(player_id)
                            &&& self@.players.contains_key(player_id)
                            &&& dead_state(self@, player_id) == Ok::<bool, CoreError>(false)
                            &&& position == self@.players[player_id].position
                            &&& within_reach(from, position)
                        },
                        PlayerItemUseCreatureTargetOutcome::StaticCreature { creature_id, position, health_percent } => {
                            &&& intent.target == PlayerItemUseCreatureTarget::StaticCreature(creature_id)
                            &&& self@.static_creatures.contains_key(creature_id)
                            &&& self@.static_creatures[creature_id].active
                            &&& position == self@.static_creatures[creature_id].entity.position
                            &&& health_percent == self@.static_creatures[creature_id].health_percent
                            &&& within_reach(from, position)
                        },
                    }
                }),
            match item_use_result(self@, map.view(), intent.source) {
                Err(e) => r == Err::<PlayerItemUseCreatureOutcome, CoreError>(e),
                Ok(source) => {
                    let from = self@.players[intent.source.player_id].position;
                    match intent.target {
                        PlayerItemUseCreatureTarget::Player(t) => {
                            if !self@.players.contains_key(t) {
                                r == Err::<PlayerItemUseCreatureOutcome, CoreError>(CoreError::UnknownPlayer(t))
                            } else if dead_state(self@, t) is Err {
                                r == Err::<PlayerItemUseCreatureOutcome, CoreError>(CoreError::UnknownPlayer(t))
                            } else if dead_state(self@, t) == Ok::<bool, CoreError>(true) {
                                r == Err::<PlayerItemUseCreatureOutcome, CoreError>(CoreError::PlayerIsDead(t))
                            } else if !within_reach(from, self@.players[t].position) {
                                r == Err::<PlayerItemUseCreatureOutcome, CoreError>(CoreError::ItemUseOutOfRange {
                                    player_id: intent.source.player_id, from, to: self@.players[t].position })
                            } else {
                                r == Ok::<PlayerItemUseCreatureOutcome, CoreError>(PlayerItemUseCreatureOutcome { source,
                                    target: PlayerItemUseCreatureTargetOutcome::Player { player_id: t,
                                        position: self@.players[t].position } })
                            }
                        },
                        PlayerItemUseCreatureTarget::StaticCreature(c) => {
                            if !self@.static_creatures.contains_key(c) {
                                r == Err::<PlayerItemUseCreatureOutcome, CoreError>(CoreError::UnknownStaticCreature(c))
                            } else if !self@.static_creatures[c].active {
                                r == Err::<PlayerItemUseCreatureOutcome, CoreError>(CoreError::InactiveStaticCreature(c))
                            } else if !within_reach(from, self@.static_creatures[c].entity.position) {
                                r == Err::<PlayerItemUseCreatureOutcome, CoreError>(CoreError::ItemUseOutOfRange {
                                    player_id: intent.source.player_id, from,
                                    to: self@.static_creatures[c].entity.position })
                            } else {
                                r == Ok::<PlayerItemUseCreatureOutcome, CoreError>(PlayerItemUseCreatureOutcome { source,
                                    target: PlayerItemUseCreatureTargetOutcome::StaticCreature { creature_id: c,
                                        position: self@.static_creatures[c].entity.position,
                                        health_percent: self@.static_creatures[c].health_percent } })
                            }
                        },
                    }
                },
            },
    {
        let source = self.validate_player_item_use(map, intent.source)?;
        let from = self.players.get(&intent.source.player_id).unwrap().position;
        let target = match intent.target {
            PlayerItemUseCreatureTarget::Player(player_id) => {
                let position = match self.players.get(&player_id) {
                    Some(p) => p.position,
                    None => { return Err(CoreError::UnknownPlayer(player_id)); },
                };
                let dead = self.player_respawn_state(player_id)?.dead;
                if dead {
                    return Err(CoreError::PlayerIsDead(player_id));
                }
                PlayerItemUseCreatureTargetOutcome::Player { player_id, position }
            },
            PlayerItemUseCreatureTarget::StaticCreature(creature_id) => {
                let runtime = match self.static_creatures.get(&creature_id) {
                    Some(r) => r,
                    None => { return Err(CoreError::UnknownStaticCreature(creature_id)); },
                };
                if !runtime.active {
                    return Err(CoreError::InactiveStaticCreature(creature_id));
                }
                PlayerItemUseCreatureTargetOutcome::StaticCreature {
                    creature_id,
                    position: runtime.entity.position,
                    health_percent: runtime.health_percent,
                }
            },
        };
        let to = match target {
            PlayerItemUseCreatureTargetOutcome::Player { position, .. } => position,
            PlayerItemUseCreatureTargetOutcome::StaticCreature { position, .. } => position,
        };
        if from != to && !from.is_adjacent_to(to) {
            return Err(CoreError::ItemUseOutOfRange { player_id: intent.source.player_id, from, to });
        }
        Ok(PlayerItemUseCreatureOutcome { source, target })
    }
}

} // verus!
