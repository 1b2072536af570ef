//! The authoritative world state: registered players and everything the server owns about them.

use vstd::prelude::*;
use std::collections::{BTreeMap, BTreeSet};
use crate::error::CoreError;
use crate::geometry::{Position, position_key};
use crate::progression::{
    Player, PlayerVitals, PlayerProgression, PlayerProgressionAttempts, PlayerRespawnState,
    same_progression,
};
use crate::conditions::{ConditionMap, ConditionView, condition_views};
use crate::items::{PlayerEquipment, PlayerContainers, EquipmentView, ContainersView};
use crate::combat::{
    PlayerCombatDefense, PlayerFightModeState, PlayerCombatCooldown, PlayerSpellCooldown,
    MAX_COMBAT_EVENT_DAMAGE,
};
use crate::interaction::PlayerInteractionIntent;
use crate::creatures::StaticCreatureRuntime;
use crate::world::trade::{PlayerTradeSession, TradeSessionView};
use crate::world::statics::creatures_sound;

pub mod lifecycle;
pub mod trade;
pub mod statics;
pub mod static_laws;
pub mod advancement;
pub mod party;
pub mod movement;
pub mod item_use;
pub mod vitals;
pub mod combat;
pub mod conditions;
pub mod death;
pub mod transfers;

verus! {

broadcast use {vstd::std_specs::btree::group_btree_axioms, vstd::laws_cmp::group_laws_cmp};

/// One player's fed state: `until_tick` is absolute, the accumulator paces food gains.
#[derive(Debug, Clone, Copy, PartialEq, Eq, Structural)]
pub struct PlayerFoodWindow {
    pub until_tick: u64,
    pub elapsed_seconds: u16,
}

/// Seconds accumulated towards the next health and mana recovery.
#[derive(Debug, Clone, Copy, PartialEq, Eq, Structural)]
pub struct PlayerRegenerationSchedule {
    pub health_elapsed_seconds: u16,
    pub mana_elapsed_seconds: u16,
}

/// The mathematical model of a world state.
#[verifier::ext_equal]
pub struct WorldModel {
    pub players: Map<u64, Player>,
    pub vitals: Map<u64, PlayerVitals>,
    pub progressions: Map<u64, PlayerProgression>,
    pub attempts: Map<u64, PlayerProgressionAttempts>,
    pub towns: Map<u64, u32>,
    pub regeneration: Map<u64, PlayerRegenerationSchedule>,
    pub food_windows: Map<u64, PlayerFoodWindow>,
    pub god_mode: Set<u64>,
    pub invisible: Set<u64>,
    pub conditions: Map<u64, Map<u8, ConditionView>>,
    pub respawn_states: Map<u64, PlayerRespawnState>,
    pub equipments: Map<u64, EquipmentView>,
    pub containers: Map<u64, ContainersView>,
    pub defenses: Map<u64, PlayerCombatDefense>,
    pub fight_modes: Map<u64, PlayerFightModeState>,
    pub combat_cooldowns: Map<u64, PlayerCombatCooldown>,
    pub spell_cooldowns: Map<u64, PlayerSpellCooldown>,
    pub interactions: Map<u64, PlayerInteractionIntent>,
    pub frags: Map<u64, u32>,
    pub party_leaders: Set<u64>,
    pub party_memberships: Map<u64, u64>,
    pub party_invitations: Map<u64, Set<u64>>,
    pub shared_requested: Set<u64>,
    pub shared_activity: Map<u64, u64>,
    pub static_creatures: Map<u32, StaticCreatureRuntime>,
    pub static_occupied: Set<(u16, u16, u8)>,
    pub trades: Map<u64, TradeSessionView>,
    pub tick: u64,
    pub revision: u64,
}

/// The authoritative world: every per-player table is keyed by the player's identifier.
#[derive(Debug)]
pub struct WorldState {
    pub(crate) players: BTreeMap<u64, Player>,
    pub(crate) player_vitals: BTreeMap<u64, PlayerVitals>,
    pub(crate) player_progressions: BTreeMap<u64, PlayerProgression>,
    pub(crate) player_progression_attempts: BTreeMap<u64, PlayerProgressionAttempts>,
    pub(crate) player_towns: BTreeMap<u64, u32>,
    pub(crate) player_regeneration_schedules: BTreeMap<u64, PlayerRegenerationSchedule>,
    pub(crate) player_food_windows: BTreeMap<u64, PlayerFoodWindow>,
    /// Operator god mode: invincible and creature-untargetable.
    pub(crate) player_god_mode: BTreeSet<u64>,
    /// Operator invisibility: hidden from creatures and from other players' viewports.
    pub(crate) player_invisible: BTreeSet<u64>,
    pub(crate) player_conditions: BTreeMap<u64, ConditionMap>,
    pub(crate) player_respawn_states: BTreeMap<u64, PlayerRespawnState>,
    pub(crate) player_equipments: BTreeMap<u64, PlayerEquipment>,
    pub(crate) player_containers: BTreeMap<u64, PlayerContainers>,
    pub(crate) player_combat_defenses: BTreeMap<u64, PlayerCombatDefense>,
    pub(crate) player_fight_modes: BTreeMap<u64, PlayerFightModeState>,
    pub(crate) player_combat_cooldowns: BTreeMap<u64, PlayerCombatCooldown>,
    pub(crate) player_spell_cooldowns: BTreeMap<u64, PlayerSpellCooldown>,
    pub(crate) player_interactions: BTreeMap<u64, PlayerInteractionIntent>,
    /// Unjustified player-kill counts keyed by killer.
    pub(crate) player_frags: BTreeMap<u64, u32>,
    pub(crate) party_leaders: BTreeSet<u64>,
    pub(crate) party_memberships: BTreeMap<u64, u64>,
    pub(crate) party_invitations: BTreeMap<u64, BTreeSet<u64>>,
    pub(crate) party_shared_experience_requested: BTreeSet<u64>,
    pub(crate) party_shared_experience_activity_ticks: BTreeMap<u64, u64>,
    pub(crate) static_creatures: BTreeMap<u32, StaticCreatureRuntime>,
    pub(crate) static_occupied_positions: BTreeSet<(u16, u16, u8)>,
    /// Live trade sessions, each stored under its initiator.
    pub(crate) active_trades: BTreeMap<u64, PlayerTradeSession>,
    pub(crate) tick: u64,
    pub(crate) revision: u64,
}

/// The revision after one accepted mutation (saturating).
pub open spec fn bumped(revision: u64) -> u64 {
    if revision == u64::MAX { revision } else { (revision + 1) as u64 }
}

pub open spec fn empty_model() -> WorldModel {
    WorldModel {
        players: Map::empty(),
        vitals: Map::empty(),
        progressions: Map::empty(),
        attempts: Map::empty(),
        towns: Map::empty(),
        regeneration: Map::empty(),
        food_windows: Map::empty(),
        god_mode: Set::empty(),
        invisible: Set::empty(),
        conditions: Map::empty(),
        respawn_states: Map::empty(),
        equipments: Map::empty(),
        containers: Map::empty(),
        defenses: Map::empty(),
        fight_modes: Map::empty(),
        combat_cooldowns: Map::empty(),
        spell_cooldowns: Map::empty(),
        interactions: Map::empty(),
        frags: Map::empty(),
        party_leaders: Set::empty(),
        party_memberships: Map::empty(),
        party_invitations: Map::empty(),
        shared_requested: Set::empty(),
        shared_activity: Map::empty(),
        static_creatures: Map::empty(),
        static_occupied: Set::empty(),
        trades: Map::empty(),
        tick: 0,
        revision: 0,
    }
}

/// The lookup result of a per-player table.
pub open spec fn lookup<V>(m: Map<u64, V>, id: u64) -> Result<V, CoreError> {
    if m.contains_key(id) { Ok(m[id]) } else { Err(CoreError::UnknownPlayer(id)) }
}

impl Default for WorldState {
    fn default() -> (r: WorldState)
        ensures
            r@ == empty_model(),
    {
        WorldState::new()
    }
}

impl View for WorldState {
    type V = WorldModel;

    /// The mathematical model of the world: every table by its keys and values.
    open(crate) spec fn view(&self) -> WorldModel {
        WorldModel {
            players: self.players@,
            vitals: self.player_vitals@,
            progressions: self.player_progressions@,
            attempts: self.player_progression_attempts@,
            towns: self.player_towns@,
            regeneration: self.player_regeneration_schedules@,
            food_windows: self.player_food_windows@,
            god_mode: self.player_god_mode@,
            invisible: self.player_invisible@,
            conditions: self.player_conditions@.map_values(|c: ConditionMap| condition_views(c@)),
            respawn_states: self.player_respawn_states@,
            equipments: self.player_equipments@.map_values(|e: PlayerEquipment| e@),
            containers: self.player_containers@.map_values(|c: PlayerContainers| c@),
            defenses: self.player_combat_defenses@,
            fight_modes: self.player_fight_modes@,
            combat_cooldowns: self.player_combat_cooldowns@,
            spell_cooldowns: self.player_spell_cooldowns@,
            interactions: self.player_interactions@,
            frags: self.player_frags@,
            party_leaders: self.party_leaders@,
            party_memberships: self.party_memberships@,
            party_invitations: self.party_invitations@.map_values(|s: BTreeSet<u64>| s@),
            shared_requested: self.party_shared_experience_requested@,
            shared_activity: self.party_shared_experience_activity_ticks@,
            static_creatures: self.static_creatures@,
            static_occupied: self.static_occupied_positions@,
            trades: self.active_trades@.map_values(|t: PlayerTradeSession| t@),
            tick: self.tick,
            revision: self.revision,
        }
    }
}

impl WorldState {
    /// An empty world at tick zero.
    pub fn new() -> (r: WorldState)
        ensures
            r@ == empty_model(),
            creatures_sound(r@),
    {
        WorldState {
            players: BTreeMap::new(),
            player_vitals: BTreeMap::new(),
            player_progressions: BTreeMap::new(),
            player_progression_attempts: BTreeMap::new(),
            player_towns: BTreeMap::new(),
            player_regeneration_schedules: BTreeMap::new(),
            player_food_windows: BTreeMap::new(),
            player_god_mode: BTreeSet::new(),
            player_invisible: BTreeSet::new(),
            player_conditions: BTreeMap::new(),
            player_respawn_states: BTreeMap::new(),
            player_equipments: BTreeMap::new(),
            player_containers: BTreeMap::new(),
            player_combat_defenses: BTreeMap::new(),
            player_fight_modes: BTreeMap::new(),
            player_combat_cooldowns: BTreeMap::new(),
            player_spell_cooldowns: BTreeMap::new(),
            player_interactions: BTreeMap::new(),
            player_frags: BTreeMap::new(),
            party_leaders: BTreeSet::new(),
            party_memberships: BTreeMap::new(),
            party_invitations: BTreeMap::new(),
            party_shared_experience_requested: BTreeSet::new(),
            party_shared_experience_activity_ticks: BTreeMap::new(),
            static_creatures: BTreeMap::new(),
            static_occupied_positions: BTreeSet::new(),
            active_trades: BTreeMap::new(),
            tick: 0,
            revision: 0,
        }
    }

    /// Records one accepted authoritative mutation.
    pub(crate) fn mark_changed(&mut self)
        ensures
            final(self)@ == (WorldModel { revision: bumped(old(self)@.revision), ..old(self)@ }),
    {
        self.revision = self.revision.saturating_add(1);
    }

    pub fn tick(&self) -> (r: u64)
        ensures
            r == self@.tick,
    {
        self.tick
    }

    /// Advances after every accepted authoritative mutation.
    pub fn revision(&self) -> (r: u64)
        ensures
            r == self@.revision,
    {
        self.revision
    }

    pub fn advance_tick(&mut self) -> (r: u64)
        ensures
            creatures_sound(old(self)@) ==> creatures_sound(final(self)@),
            final(self)@ == (WorldModel {
                tick: (if old(self)@.tick == u64::MAX { u64::MAX } else { (old(self)@.tick + 1) as u64 }),
                revision: bumped(old(self)@.revision),
                ..old(self)@
            }),
            r == final(self)@.tick,
    {
        self.advance_ticks(1)
    }

    /// Advances the clock by a caller-measured elapsed duration; zero is a no-op.
    pub fn advance_ticks(&mut self, elapsed_seconds: u16) -> (r: u64)
        ensures
            creatures_sound(old(self)@) ==> creatures_sound(final(self)@),
            elapsed_seconds == 0 ==> final(self)@ == old(self)@,
            elapsed_seconds > 0 ==> final(self)@ == (WorldModel {
                tick: (if old(self)@.tick + elapsed_seconds > u64::MAX { u64::MAX } else {
                    (old(self)@.tick + elapsed_seconds) as u64 }),
                revision: bumped(old(self)@.revision),
                ..old(self)@
            }),
            r == final(self)@.tick,
    {
        if elapsed_seconds == 0 {
            return self.tick;
        }
        let ghost m = self@;
        self.tick = self.tick.saturating_add(elapsed_seconds as u64);
        self.mark_changed();
        proof {
            if creatures_sound(m) {
                crate::world::statics::lemma_sound_later(m, self@);
            }
        }
        self.tick
    }

    pub fn player(&self, id: u64) -> (r: Option<&Player>)
        ensures
            match r {
                Some(p) => self@.players.contains_key(id) && *p == self@.players[id],
                None => !self@.players.contains_key(id),
            },
    {
        self.players.get(&id)
    }

    pub fn player_vitals(&self, player_id: u64) -> (r: Result<PlayerVitals, CoreError>)
        ensures
            r == lookup(self@.vitals, player_id),
    {
        match self.player_vitals.get(&player_id) {
            Some(v) => Ok(*v),
            None => Err(CoreError::UnknownPlayer(player_id)),
        }
    }

    pub fn player_combat_cooldown(&self, player_id: u64) -> (r: Result<PlayerCombatCooldown, CoreError>)
        ensures
            r == lookup(self@.combat_cooldowns, player_id),
    {
        match self.player_combat_cooldowns.get(&player_id) {
            Some(v) => Ok(*v),
            None => Err(CoreError::UnknownPlayer(player_id)),
        }
    }

    pub fn player_spell_cooldown(&self, player_id: u64) -> (r: Result<PlayerSpellCooldown, CoreError>)
        ensures
            r == lookup(self@.spell_cooldowns, player_id),
    {
        match self.player_spell_cooldowns.get(&player_id) {
            Some(v) => Ok(*v),
            None => Err(CoreError::UnknownPlayer(player_id)),
        }
    }

    pub fn player_combat_defense(&self, player_id: u64) -> (r: Result<PlayerCombatDefense, CoreError>)
        ensures
            r == lookup(self@.defenses, player_id),
    {
        match self.player_combat_defenses.get(&player_id) {
            Some(v) => Ok(*v),
            None => Err(CoreError::UnknownPlayer(player_id)),
        }
    }

    pub fn player_fight_mode_state(&self, player_id: u64) -> (r: Result<PlayerFightModeState, CoreError>)
        ensures
            r == lookup(self@.fight_modes, player_id),
    {
        match self.player_fight_modes.get(&player_id) {
            Some(v) => Ok(*v),
            None => Err(CoreError::UnknownPlayer(player_id)),
        }
    }

    pub fn player_progression(&self, player_id: u64) -> (r: Result<PlayerProgression, CoreError>)
        ensures
            r == lookup(self@.progressions, player_id),
    {
        match self.player_progressions.get(&player_id) {
            Some(v) => Ok(*v),
            None => Err(CoreError::UnknownPlayer(player_id)),
        }
    }

    pub fn player_progression_attempts(&self, player_id: u64) -> (r: Result<PlayerProgressionAttempts, CoreError>)
        ensures
            r == lookup(self@.attempts, player_id),
    {
        match self.player_progression_attempts.get(&player_id) {
            Some(v) => Ok(*v),
            None => Err(CoreError::UnknownPlayer(player_id)),
        }
    }

    pub fn player_equipment(&self, player_id: u64) -> (r: Result<&PlayerEquipment, CoreError>)
        ensures
            match r {
                Ok(e) => self@.equipments.contains_key(player_id) && e@ == self@.equipments[player_id],
                Err(e) => !self@.equipments.contains_key(player_id) && e == CoreError::UnknownPlayer(player_id),
            },
    {
        match self.player_equipments.get(&player_id) {
            Some(v) => Ok(v),
            None => Err(CoreError::UnknownPlayer(player_id)),
        }
    }

    pub fn player_containers(&self, player_id: u64) -> (r: Result<&PlayerContainers, CoreError>)
        ensures
            match r {
                Ok(c) => self@.containers.contains_key(player_id) && c@ == self@.containers[player_id],
                Err(e) => !self@.containers.contains_key(player_id) && e == CoreError::UnknownPlayer(player_id),
            },
    {
        match self.player_containers.get(&player_id) {
            Some(v) => Ok(v),
            None => Err(CoreError::UnknownPlayer(player_id)),
        }
    }

    /// Replaces fight preferences; a replacement by the current value changes nothing.
    pub fn replace_player_fight_mode_state(&mut self, player_id: u64, state: PlayerFightModeState)
        -> (r: Result<bool, CoreError>)
        ensures
            !old(self)@.players.contains_key(player_id) ==> r == Err::<bool, CoreError>(CoreError::UnknownPlayer(player_id))
                && final(self)@ == old(self)@,
            old(self)@.players.contains_key(player_id) && !old(self)@.fight_modes.contains_key(player_id)
                ==> r == Err::<bool, CoreError>(CoreError::UnknownPlayer(player_id)) && final(self)@ == old(self)@,
            old(self)@.players.contains_key(player_id) && old(self)@.fight_modes.contains_key(player_id)
                && old(self)@.fight_modes[player_id] == state ==> r == Ok::<bool, CoreError>(false) && final(self)@ == old(self)@,
            old(self)@.players.contains_key(player_id) && old(self)@.fight_modes.contains_key(player_id)
                && old(self)@.fight_modes[player_id] != state ==> r == Ok::<bool, CoreError>(true)
                && final(self)@ == (WorldModel {
                    fight_modes: old(self)@.fight_modes.insert(player_id, state),
                    revision: bumped(old(self)@.revision),
                    ..old(self)@
                }),
    {
        if !self.players.contains_key(&player_id) {
            return Err(CoreError::UnknownPlayer(player_id));
        }
        let current = self.player_fight_mode_state(player_id)?;
        if current == state {
            return Ok(false);
        }
        self.player_fight_modes.insert(player_id, state);
        self.mark_changed();
        Ok(true)
    }

    /// Replaces the profile-neutral defense value, bounded by the largest event damage.
    pub fn replace_player_combat_defense(&mut self, player_id: u64, defense: PlayerCombatDefense)
        -> (r: Result<bool, CoreError>)
        ensures
            !old(self)@.players.contains_key(player_id) ==> r == Err::<bool, CoreError>(CoreError::UnknownPlayer(player_id)),
            old(self)@.players.contains_key(player_id) && defense.physical_flat_reduction > MAX_COMBAT_EVENT_DAMAGE
                ==> r == Err::<bool, CoreError>(CoreError::InvalidCombatDefense),
            old(self)@.players.contains_key(player_id) && defense.physical_flat_reduction <= MAX_COMBAT_EVENT_DAMAGE
                && !old(self)@.defenses.contains_key(player_id) ==> r == Err::<bool, CoreError>(CoreError::UnknownPlayer(player_id)),
            r is Err ==> final(self)@ == old(self)@,
            r == Ok::<bool, CoreError>(false) ==> final(self)@ == old(self)@,
            old(self)@.players.contains_key(player_id) && defense.physical_flat_reduction <= MAX_COMBAT_EVENT_DAMAGE
                && old(self)@.defenses.contains_key(player_id)
                ==> r == Ok::<bool, CoreError>(old(self)@.defenses[player_id] != defense),
            r == Ok::<bool, CoreError>(true) ==> final(self)@ == (WorldModel {
                defenses: old(self)@.defenses.insert(player_id, defense),
                revision: bumped(old(self)@.revision),
                ..old(self)@
            }),
    {
        if !self.players.contains_key(&player_id) {
            return Err(CoreError::UnknownPlayer(player_id));
        }
        if defense.physical_flat_reduction > MAX_COMBAT_EVENT_DAMAGE {
            return Err(CoreError::InvalidCombatDefense);
        }
        let current = self.player_combat_defense(player_id)?;
        if current == defense {
            return Ok(false);
        }
        self.player_combat_defenses.insert(player_id, defense);
        self.mark_changed();
        Ok(true)
    }

    /// Replaces the exact progression counters of a known player.
    pub fn replace_player_progression_attempts(&mut self, player_id: u64, attempts: PlayerProgressionAttempts)
        -> (r: Result<bool, CoreError>)
        ensures
            !(old(self)@.players.contains_key(player_id) && old(self)@.attempts.contains_key(player_id))
                ==> r == Err::<bool, CoreError>(CoreError::UnknownPlayer(player_id)) && final(self)@ == old(self)@,
            old(self)@.players.contains_key(player_id) && old(self)@.attempts.contains_key(player_id)
                ==> r == Ok::<bool, CoreError>(old(self)@.attempts[player_id] != attempts),
            r == Ok::<bool, CoreError>(false) ==> final(self)@ == old(self)@,
            r == Ok::<bool, CoreError>(true) ==> final(self)@ == (WorldModel {
                attempts: old(self)@.attempts.insert(player_id, attempts),
                revision: bumped(old(self)@.revision),
                ..old(self)@
            }),
    {
        if !self.players.contains_key(&player_id) {
            return Err(CoreError::UnknownPlayer(player_id));
        }
        let current = self.player_progression_attempts(player_id)?;
        if current.same_as(&attempts) {
            proof { current.lemma_counters_determine(attempts); }
            return Ok(false);
        }
        self.player_progression_attempts.insert(player_id, attempts);
        self.mark_changed();
        Ok(true)
    }

    /// Replaces a known player's equipment; an identical set changes nothing.
    pub fn replace_player_equipment(&mut self, player_id: u64, equipment: PlayerEquipment)
        -> (r: Result<bool, CoreError>)
        ensures
            !(old(self)@.players.contains_key(player_id) && old(self)@.equipments.contains_key(player_id))
                ==> r == Err::<bool, CoreError>(CoreError::UnknownPlayer(player_id)) && final(self)@ == old(self)@,
            old(self)@.players.contains_key(player_id) && old(self)@.equipments.contains_key(player_id)
                ==> r == Ok::<bool, CoreError>(old(self)@.equipments[player_id] != equipment@),
            r == Ok::<bool, CoreError>(false) ==> final(self)@ == old(self)@,
            r == Ok::<bool, CoreError>(true) ==> final(self)@ == (WorldModel {
                equipments: old(self)@.equipments.insert(player_id, equipment@),
                revision: bumped(old(self)@.revision),
                ..old(self)@
            }),
    {
        if !self.players.contains_key(&player_id) {
            return Err(CoreError::UnknownPlayer(player_id));
        }
        let current = self.player_equipment(player_id)?;
        if current.same_as(&equipment) {
            return Ok(false);
        }
        self.player_equipments.insert(player_id, equipment);
        proof {
            assert(self@.equipments =~= old(self)@.equipments.insert(player_id, equipment@));
        }
        self.mark_changed();
        Ok(true)
    }

    /// Replaces a known player's containers and records the change.
    pub fn replace_player_containers(&mut self, player_id: u64, containers: PlayerContainers)
        -> (r: Result<bool, CoreError>)
        ensures
            !(old(self)@.players.contains_key(player_id) && old(self)@.containers.contains_key(player_id))
                ==> r == Err::<bool, CoreError>(CoreError::UnknownPlayer(player_id)) && final(self)@ == old(self)@,
            old(self)@.players.contains_key(player_id) && old(self)@.containers.contains_key(player_id)
                ==> r == Ok::<bool, CoreError>(old(self)@.containers[player_id] != containers@),
            r == Ok::<bool, CoreError>(false) ==> final(self)@ == old(self)@,
            r == Ok::<bool, CoreError>(true) ==> final(self)@ == (WorldModel {
                containers: old(self)@.containers.insert(player_id, containers@),
                revision: bumped(old(self)@.revision),
                ..old(self)@
            }),
    {
        let changed = self.replace_player_containers_quiet(player_id, containers)?;
        if changed {
            self.mark_changed();
        }
        Ok(changed)
    }

    /// Replaces a known player's containers without recording a world revision.
    pub fn replace_player_containers_quiet(&mut self, player_id: u64, containers: PlayerContainers)
        -> (r: Result<bool, CoreError>)
        ensures
            !(old(self)@.players.contains_key(player_id) && old(self)@.containers.contains_key(player_id))
                ==> r == Err::<bool, CoreError>(CoreError::UnknownPlayer(player_id)) && final(self)@ == old(self)@,
            old(self)@.players.contains_key(player_id) && old(self)@.containers.contains_key(player_id)
                ==> r == Ok::<bool, CoreError>(old(self)@.containers[player_id] != containers@),
            r == Ok::<bool, CoreError>(false) ==> final(self)@ == old(self)@,
            r == Ok::<bool, CoreError>(true) ==> final(self)@ == (WorldModel {
                containers: old(self)@.containers.insert(player_id, containers@),
                ..old(self)@
            }),
    {
        if !self.players.contains_key(&player_id) {
            return Err(CoreError::UnknownPlayer(player_id));
        }
        let current = self.player_containers(player_id)?;
        if current.same_as(&containers) {
            return Ok(false);
        }
        self.player_containers.insert(player_id, containers);
        proof {
            assert(self@.containers =~= old(self)@.containers.insert(player_id, containers@));
        }
        Ok(true)
    }

    /// Increments one killer's unjustified-kill count (saturating) and returns the new count.
    pub fn record_player_frag(&mut self, killer_id: u64) -> (r: u32)
        ensures
            r == (if old(self)@.frags.contains_key(killer_id) {
                if old(self)@.frags[killer_id] == u32::MAX { u32::MAX } else { (old(self)@.frags[killer_id] + 1) as u32 }
            } else { 1u32 }),
            final(self)@ == (WorldModel {
                frags: old(self)@.frags.insert(killer_id, r),
                revision: bumped(old(self)@.revision),
                ..old(self)@
            }),
    {
        let current = match self.player_frags.get(&killer_id) {
            Some(v) => *v,
            None => 0,
        };
        let total = current.saturating_add(1);
        self.player_frags.insert(killer_id, total);
        self.mark_changed();
        total
    }

    /// One player's current unjustified-kill count.
    pub fn player_frag_count(&self, player_id: u64) -> (r: u32)
        ensures
            r == (if self@.frags.contains_key(player_id) { self@.frags[player_id] } else { 0 }),
    {
        match self.player_frags.get(&player_id) {
            Some(v) => *v,
            None => 0,
        }
    }

    /// Classic white skull: at least one unjustified kill.
    pub fn player_has_white_skull(&self, player_id: u64) -> (r: bool)
        ensures
            r == (self@.frags.contains_key(player_id) && self@.frags[player_id] > 0),
    {
        self.player_frag_count(player_id) > 0
    }

    pub fn is_static_creature_occupied(&self, position: Position) -> (r: bool)
        ensures
            r == self@.static_occupied.contains(position_key(position)),
    {
        self.static_occupied_positions.contains(&position.key())
    }
}

} // verus!
