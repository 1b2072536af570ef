//! Towns, the death state and respawning.

use vstd::prelude::*;
use std::collections::BTreeMap;
use crate::error::CoreError;
use crate::geometry::{Position, position_key};
use crate::progression::{Player, PlayerVitals, PlayerRespawnState, PlayerRespawnOutcome, living_state};
use crate::conditions::{ConditionMap, ConditionView, condition_views};
use crate::map::{WorldMap, WorldMapView};
use crate::world::{WorldState, WorldModel, bumped, lookup};
use crate::world::lifecycle::intents_without;
use crate::world::movement::other_player_at;

verus! {

broadcast use {vstd::std_specs::btree::group_btree_axioms, vstd::laws_cmp::group_laws_cmp};

/// A persisted lifecycle record that may be hydrated.
pub open spec fn respawn_state_valid(s: PlayerRespawnState) -> bool {
    if s.dead { s.respawn_at is Some && s.death_time is Some } else { s == living_state() }
}

/// The world after a player dies with a temple to return to.
pub open spec fn died(m: WorldModel, id: u64, temple: Position) -> WorldModel {
    WorldModel {
        vitals: m.vitals.insert(id, PlayerVitals { health: 0, ..m.vitals[id] }),
        conditions: m.conditions.insert(id, Map::<u8, ConditionView>::empty()),
        respawn_states: m.respawn_states.insert(id, PlayerRespawnState { dead: true, respawn_at: Some(temple),
            death_time: Some(m.tick), loss_applied: false }),
        interactions: intents_without(m.interactions, id),
        revision: bumped(m.revision),
        ..m
    }
}

/// What `apply_player_death` returns and leaves behind.
pub open spec fn death_outcome(m: WorldModel, id: u64, town: u32, map: WorldMapView)
    -> (Result<PlayerRespawnState, CoreError>, WorldModel)
{
    if !(m.players.contains_key(id) && m.respawn_states.contains_key(id)) {
        (Err(CoreError::UnknownPlayer(id)), m)
    } else if m.respawn_states[id].dead {
        (Ok(m.respawn_states[id]), m)
    } else if !map.towns.contains_key(town) {
        (Err(CoreError::UnknownTown(town)), m)
    } else if !m.vitals.contains_key(id) {
        (Err(CoreError::UnknownPlayer(id)), m)
    } else if !m.conditions.contains_key(id) {
        (Err(CoreError::UnknownPlayer(id)), WorldModel { vitals: m.vitals.insert(id, PlayerVitals { health: 0, ..m.vitals[id] }), ..m })
    } else {
        let temple = map.towns[town].temple_position;
        (Ok(PlayerRespawnState { dead: true, respawn_at: Some(temple), death_time: Some(m.tick), loss_applied: false }),
            died(m, id, temple))
    }
}

impl WorldState {
    /// The town of a known player (zero means unassigned).
    pub fn player_town(&self, player_id: u64) -> (r: Result<u32, CoreError>)
        ensures
            r == lookup(self@.towns, player_id),
    {
        match self.player_towns.get(&player_id) {
            Some(t) => Ok(*t),
            None => Err(CoreError::UnknownPlayer(player_id)),
        }
    }

    /// Replaces the town of a known player; the same town changes nothing.
    pub fn replace_player_town(&mut self, player_id: u64, town_id: u32) -> (r: Result<bool, CoreError>)
        ensures
            !(old(self)@.players.contains_key(player_id) && old(self)@.towns.contains_key(player_id))
                ==> r == Err::<bool, CoreError>(CoreError::UnknownPlayer(player_id)) && final(self)@ == old(self)@,
            old(self)@.players.contains_key(player_id) && old(self)@.towns.contains_key(player_id) ==> {
                let same = old(self)@.towns[player_id] == town_id;
                &&& r == Ok::<bool, CoreError>(!same)
                &&& same ==> final(self)@ == old(self)@
                &&& !same ==> final(self)@ == (WorldModel { towns: old(self)@.towns.insert(player_id, town_id),
                    revision: bumped(old(self)@.revision), ..old(self)@ })
            },
    {
        if !self.players.contains_key(&player_id) {
            return Err(CoreError::UnknownPlayer(player_id));
        }
        if self.player_town(player_id)? == town_id {
            return Ok(false);
        }
        self.player_towns.insert(player_id, town_id);
        self.mark_changed();
        Ok(true)
    }

    /// Hydrates a persisted lifecycle record: a living record must be empty, a dead one must carry
    /// its temple and death tick.
    pub fn hydrate_player_respawn_state(&mut self, player_id: u64, state: PlayerRespawnState) -> (r: Result<bool, CoreError>)
        ensures
            !old(self)@.players.contains_key(player_id) ==> r == Err::<bool, CoreError>(CoreError::UnknownPlayer(player_id)),
            old(self)@.players.contains_key(player_id) && !respawn_state_valid(state)
                ==> r == Err::<bool, CoreError>(CoreError::InvalidPlayerRespawnState(player_id)),
            old(self)@.players.contains_key(player_id) && respawn_state_valid(state) && !old(self)@.respawn_states.contains_key(player_id)
                ==> r == Err::<bool, CoreError>(CoreError::UnknownPlayer(player_id)),
            r is Err ==> final(self)@ == old(self)@,
            old(self)@.players.contains_key(player_id) && respawn_state_valid(state) && old(self)@.respawn_states.contains_key(player_id) ==> {
                let same = old(self)@.respawn_states[player_id] == state;
                &&& r == Ok::<bool, CoreError>(!same)
                &&& same ==> final(self)@ == old(self)@
                &&& !same ==> final(self)@ == (WorldModel { respawn_states: old(self)@.respawn_states.insert(player_id, state),
                    revision: bumped(old(self)@.revision), ..old(self)@ })
            },
    {
        if !self.players.contains_key(&player_id) {
            return Err(CoreError::UnknownPlayer(player_id));
        }
        let valid = if state.dead {
            state.respawn_at.is_some() && state.death_time.is_some()
        } else {
            !state.dead && state.respawn_at.is_none() && state.death_time.is_none() && !state.loss_applied
        };
        if !valid {
            return Err(CoreError::InvalidPlayerRespawnState(player_id));
        }
        let current = self.player_respawn_state(player_id)?;
        if current == state {
            return Ok(false);
        }
        self.player_respawn_states.insert(player_id, state);
        self.mark_changed();
        Ok(true)
    }

    /// Records the death of a living player against its town's temple: health drops to zero,
    /// conditions end and other players' references to it are cleared. Dying again changes nothing.
    pub fn apply_player_death(&mut self, player_id: u64, town_id: u32, world_map: &WorldMap)
        -> (r: Result<PlayerRespawnState, CoreError>)
        ensures
            !(old(self)@.players.contains_key(player_id) && old(self)@.respawn_states.contains_key(player_id))
                ==> r == Err::<PlayerRespawnState, CoreError>(CoreError::UnknownPlayer(player_id)) && final(self)@ == old(self)@,
            old(self)@.players.contains_key(player_id) && old(self)@.respawn_states.contains_key(player_id) ==> {
                let existing = old(self)@.respawn_states[player_id];
                if existing.dead {
                    r == Ok::<PlayerRespawnState, CoreError>(existing) && final(self)@ == old(self)@
                } else if !world_map.view().towns.contains_key(town_id) {
                    r == Err::<PlayerRespawnState, CoreError>(CoreError::UnknownTown(town_id)) && final(self)@ == old(self)@
                } else if !old(self)@.vitals.contains_key(player_id) {
                    r == Err::<PlayerRespawnState, CoreError>(CoreError::UnknownPlayer(player_id)) && final(self)@ == old(self)@
                } else if !old(self)@.conditions.contains_key(player_id) {
                    r == Err::<PlayerRespawnState, CoreError>(CoreError::UnknownPlayer(player_id))
                        && final(self)@ == (WorldModel { vitals: old(self)@.vitals.insert(player_id,
                            PlayerVitals { health: 0, ..old(self)@.vitals[player_id] }), ..old(self)@ })
                } else {
                    let temple = world_map.view().towns[town_id].temple_position;
                    &&& r == Ok::<PlayerRespawnState, CoreError>(PlayerRespawnState { dead: true, respawn_at: Some(temple),
                        death_time: Some(old(self)@.tick), loss_applied: false })
                    &&& final(self)@ == died(old(self)@, player_id, temple)
                }
            },
            (r, final(self)@) == death_outcome(old(self)@, player_id, town_id, world_map@),
    {
        if !self.players.contains_key(&player_id) {
            return Err(CoreError::UnknownPlayer(player_id));
        }
        let existing = self.player_respawn_state(player_id)?;
        if existing.dead {
            return Ok(existing);
        }
        let respawn_at = match world_map.temple_position_for_town(town_id) {
            Some(p) => p,
            None => { return Err(CoreError::UnknownTown(town_id)); },
        };
        let mut vitals = match self.player_vitals.get(&player_id) {
            Some(v) => *v,
            None => { return Err(CoreError::UnknownPlayer(player_id)); },
        };
        vitals.health = 0;
        self.player_vitals.insert(player_id, vitals);
        if !self.player_conditions.contains_key(&player_id) {
            return Err(CoreError::UnknownPlayer(player_id));
        }
        let ghost m = old(self)@;
        let empty: ConditionMap = BTreeMap::new();
        proof { assert(condition_views(empty@) =~= Map::<u8, ConditionView>::empty()); }
        self.player_conditions.insert(player_id, empty);
        let state = PlayerRespawnState { dead: true, respawn_at: Some(respawn_at), death_time: Some(self.tick),
            loss_applied: false };
        self.player_respawn_states.insert(player_id, state);
        proof {
            assert(self@.conditions =~= m.conditions.insert(player_id, Map::<u8, ConditionView>::empty()));
        }
        self.clear_player_interaction_references(player_id);
        self.mark_changed();
        proof {
            assert(self@ =~= died(m, player_id, respawn_at));
        }
        Ok(state)
    }

    /// Restores a dead player at its recorded temple with full health and mana. A temple held by
    /// an active static creature or another player refuses the respawn and keeps the death state.
    pub fn respawn_player(&mut self, player_id: u64) -> (r: Result<PlayerRespawnOutcome, CoreError>)
        ensures
            !(old(self)@.players.contains_key(player_id) && old(self)@.respawn_states.contains_key(player_id))
                ==> r == Err::<PlayerRespawnOutcome, CoreError>(CoreError::UnknownPlayer(player_id)),
            r is Err ==> final(self)@ == old(self)@,
            old(self)@.players.contains_key(player_id) && old(self)@.respawn_states.contains_key(player_id) ==> {
                let s = old(self)@.respawn_states[player_id];
                if !s.dead {
                    r == Err::<PlayerRespawnOutcome, CoreError>(CoreError::PlayerIsNotDead(player_id))
                } else if s.respawn_at is None {
                    r == Err::<PlayerRespawnOutcome, CoreError>(CoreError::MissingRespawnPosition(player_id))
                } else if old(self)@.static_occupied.contains(position_key(s.respawn_at->0)) {
                    r == Err::<PlayerRespawnOutcome, CoreError>(CoreError::StaticCreatureOccupiesPosition(s.respawn_at->0))
                } else if other_player_at(old(self)@.players, player_id, s.respawn_at->0) {
                    r == Err::<PlayerRespawnOutcome, CoreError>(CoreError::PlayerOccupiesPosition(s.respawn_at->0))
                } else if !old(self)@.vitals.contains_key(player_id) {
                    r == Err::<PlayerRespawnOutcome, CoreError>(CoreError::UnknownPlayer(player_id))
                } else {
                    let p = s.respawn_at->0;
                    let v = old(self)@.vitals[player_id];
                    let restored = PlayerVitals { health: v.max_health, mana: v.max_mana, ..v };
                    &&& r == Ok::<PlayerRespawnOutcome, CoreError>(PlayerRespawnOutcome { player_id, position: p, vitals: restored })
                    &&& final(self)@ == (WorldModel {
                        vitals: old(self)@.vitals.insert(player_id, restored),
                        players: old(self)@.players.insert(player_id, Player { position: p, ..old(self)@.players[player_id] }),
                        respawn_states: old(self)@.respawn_states.insert(player_id, living_state()),
                        revision: bumped(old(self)@.revision),
                        ..old(self)@
                    })
                }
            },
    {
        if !self.players.contains_key(&player_id) {
            return Err(CoreError::UnknownPlayer(player_id));
        }
        let state = self.player_respawn_state(player_id)?;
        if !state.dead {
            return Err(CoreError::PlayerIsNotDead(player_id));
        }
        let position = match state.respawn_at {
            Some(p) => p,
            None => { return Err(CoreError::MissingRespawnPosition(player_id)); },
        };
        if self.is_static_creature_occupied(position) {
            return Err(CoreError::StaticCreatureOccupiesPosition(position));
        }
        if self.other_player_occupies(player_id, position) {
            return Err(CoreError::PlayerOccupiesPosition(position));
        }
        let mut vitals = match self.player_vitals.get(&player_id) {
            Some(v) => *v,
            None => { return Err(CoreError::UnknownPlayer(player_id)); },
        };
        vitals.health = vitals.max_health;
        vitals.mana = vitals.max_mana;
        self.player_vitals.insert(player_id, vitals);
        let mut player = self.players.get(&player_id).unwrap().duplicate();
        player.position = position;
        self.players.insert(player_id, player);
        self.player_respawn_states.insert(player_id,
            PlayerRespawnState { dead: false, respawn_at: None, death_time: None, loss_applied: false });
        self.mark_changed();
        Ok(PlayerRespawnOutcome { player_id, position, vitals })
    }
}

} // verus!
