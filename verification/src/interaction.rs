//! Player interaction and item-use intents, and the outcomes of validating them.

use vstd::prelude::*;
use crate::error::CoreError;
use crate::geometry::Position;

verus! {

/// Stored interaction intent only: selected target and follow references.
#[derive(Debug, Clone, Copy, PartialEq, Eq, Structural)]
pub struct PlayerInteractionIntent {
    pub target_player_id: Option<u64>,
    pub target_static_creature_id: Option<u32>,
    pub follow_player_id: Option<u64>,
}

pub open spec fn empty_intent() -> PlayerInteractionIntent {
    PlayerInteractionIntent { target_player_id: None, target_static_creature_id: None, follow_player_id: None }
}

impl PlayerInteractionIntent {
    pub fn empty() -> (r: PlayerInteractionIntent)
        ensures
            r == empty_intent(),
    {
        PlayerInteractionIntent { target_player_id: None, target_static_creature_id: None, follow_player_id: None }
    }

    pub fn is_empty(&self) -> (r: bool)
        ensures
            r == (*self == empty_intent()),
    {
        self.target_player_id.is_none() && self.target_static_creature_id.is_none() && self.follow_player_id.is_none()
    }
}

impl Default for PlayerInteractionIntent {
    fn default() -> (r: PlayerInteractionIntent)
        ensures
            r == empty_intent(),
    {
        PlayerInteractionIntent::empty()
    }
}

/// Display data of one registered player.
#[derive(Debug, Clone, PartialEq, Eq)]
pub struct PlayerRenderSnapshot {
    pub id: u64,
    pub name: String,
    pub position: Position,
    pub level: u32,
    pub health_percent: u8,
}

/// A bounded request to address one top-level item in an authoritative map tile.
#[derive(Debug, Clone, Copy, PartialEq, Eq, Structural)]
pub struct PlayerItemUseIntent {
    pub player_id: u64,
    pub position: Position,
    pub stack_index: u8,
    pub expected_server_id: u16,
}

impl PlayerItemUseIntent {
    pub fn new(player_id: u64, position: Position, stack_index: u8, expected_server_id: u16)
        -> (r: Result<PlayerItemUseIntent, CoreError>)
        ensures
            expected_server_id == 0 ==> r == Err::<PlayerItemUseIntent, CoreError>(CoreError::InvalidItemUseIntent),
            expected_server_id != 0 ==> r == Ok::<PlayerItemUseIntent, CoreError>(PlayerItemUseIntent {
                player_id, position, stack_index, expected_server_id }),
    {
        if expected_server_id == 0 {
            return Err(CoreError::InvalidItemUseIntent);
        }
        Ok(PlayerItemUseIntent { player_id, position, stack_index, expected_server_id })
    }
}

/// Authoritative item metadata observed by a validated item-use intent.
#[derive(Debug, Clone, Copy, PartialEq, Eq, Structural)]
pub struct PlayerItemUseOutcome {
    pub player_id: u64,
    pub position: Position,
    pub stack_index: u8,
    pub server_id: u16,
    pub count: u8,
    pub action_id: Option<u16>,
    pub unique_id: Option<u16>,
    pub has_text: bool,
    pub charges: Option<u16>,
    pub teleport_destination: Option<Position>,
}

/// A request to use one map item on another map item.
#[derive(Debug, Clone, Copy, PartialEq, Eq, Structural)]
pub struct PlayerItemUseExIntent {
    pub source: PlayerItemUseIntent,
    pub target: PlayerItemUseIntent,
}

impl PlayerItemUseExIntent {
    pub fn new(player_id: u64, source_position: Position, source_stack_index: u8, source_expected_server_id: u16,
        target_position: Position, target_stack_index: u8, target_expected_server_id: u16)
        -> (r: Result<PlayerItemUseExIntent, CoreError>)
        ensures
            (source_expected_server_id == 0 || target_expected_server_id == 0)
                ==> r == Err::<PlayerItemUseExIntent, CoreError>(CoreError::InvalidItemUseIntent),
            (source_expected_server_id != 0 && target_expected_server_id != 0) ==> r == Ok::<PlayerItemUseExIntent, CoreError>(
                PlayerItemUseExIntent {
                    source: PlayerItemUseIntent { player_id, position: source_position, stack_index: source_stack_index,
                        expected_server_id: source_expected_server_id },
                    target: PlayerItemUseIntent { player_id, position: target_position, stack_index: target_stack_index,
                        expected_server_id: target_expected_server_id },
                }),
    {
        let source = PlayerItemUseIntent::new(player_id, source_position, source_stack_index, source_expected_server_id)?;
        let target = PlayerItemUseIntent::new(player_id, target_position, target_stack_index, target_expected_server_id)?;
        Ok(PlayerItemUseExIntent { source, target })
    }
}

#[derive(Debug, Clone, Copy, PartialEq, Eq, Structural)]
pub struct PlayerItemUseExOutcome {
    pub source: PlayerItemUseOutcome,
    pub target: PlayerItemUseOutcome,
}

/// A creature addressed by a map-item-on-creature request.
#[derive(Debug, Clone, Copy, PartialEq, Eq, Structural)]
pub enum PlayerItemUseCreatureTarget {
    Player(u64),
    StaticCreature(u32),
}

#[derive(Debug, Clone, Copy, PartialEq, Eq, Structural)]
pub struct PlayerItemUseCreatureIntent {
    pub source: PlayerItemUseIntent,
    pub target: PlayerItemUseCreatureTarget,
}

#[derive(Debug, Clone, Copy, PartialEq, Eq, Structural)]
pub enum PlayerItemUseCreatureTargetOutcome {
    Player { player_id: u64, position: Position },
    StaticCreature { creature_id: u32, position: Position, health_percent: u8 },
}

#[derive(Debug, Clone, Copy, PartialEq, Eq, Structural)]
pub struct PlayerItemUseCreatureOutcome {
    pub source: PlayerItemUseOutcome,
    pub target: PlayerItemUseCreatureTargetOutcome,
}

} // verus!
