//! Player registration, removal, interaction intents and core player queries.

use vstd::prelude::*;
use std::collections::BTreeMap;
use crate::error::CoreError;
use crate::geometry::{Position, position_key};
use crate::progression::{
    Player, PlayerVitals, PlayerProgression, PlayerProgressionAttempts, PlayerRespawnState,
    vitals_valid, default_vitals, initial_progression, zero_attempts, living_state,
    ExperienceAwardPolicy, VocationLevelUpGains, PlayerExperienceAwardOutcome, gains_applied,
    level_reachable,
};
use crate::conditions::ConditionView;
use crate::items::{PlayerEquipment, PlayerContainers};
use crate::combat::{
    PlayerCombatDefense, PlayerFightMode, PlayerFightModeState, PlayerCombatCooldown, PlayerSpellCooldown,
};
use crate::interaction::{PlayerInteractionIntent, PlayerRenderSnapshot, empty_intent};
use crate::text::{is_blank, spec_is_blank};
use crate::keys::{map_keys, map_keys_u32, strictly_increasing, strictly_increasing_u32};
use crate::creatures::StaticCreatureRuntime;
use crate::world::{WorldState, WorldModel, PlayerRegenerationSchedule, bumped, lookup};
use crate::world::statics::creatures_sound;
use crate::world::party::{party_cleared, party_consistent, lemma_party_cleared_keeps_consistency, lemma_party_cleared_frame};

verus! {

broadcast use {vstd::std_specs::btree::group_btree_axioms, vstd::laws_cmp::group_laws_cmp};

/// Some registered player stands on `p`.
pub open spec fn position_taken(players: Map<u64, Player>, p: Position) -> bool {
    exists|id: u64| players.contains_key(id) && #[trigger] players[id].position == p
}

pub open spec fn default_fight_mode() -> PlayerFightModeState {
    PlayerFightModeState { mode: PlayerFightMode::Attack, chase: false, secure: false }
}

/// The registration that `add_player_with_vitals_and_progression` refuses, if any.
pub open spec fn registration_error(m: WorldModel, player: Player, vitals: PlayerVitals) -> Option<CoreError> {
    if spec_is_blank(player.name@) {
        Some(CoreError::EmptyPlayerName)
    } else if !vitals_valid(vitals) {
        Some(CoreError::InvalidPlayerVitals(player.id))
    } else if m.players.contains_key(player.id) {
        Some(CoreError::DuplicatePlayer(player.id))
    } else if position_taken(m.players, player.position) {
        Some(CoreError::PlayerOccupiesPosition(player.position))
    } else if m.static_occupied.contains(position_key(player.position)) {
        Some(CoreError::StaticCreatureOccupiesPosition(player.position))
    } else {
        None
    }
}

/// The world after registering a new player with fresh per-player state.
pub open spec fn with_new_player(m: WorldModel, player: Player, vitals: PlayerVitals, progression: PlayerProgression)
    -> WorldModel {
    let id = player.id;
    WorldModel {
        players: m.players.insert(id, player),
        vitals: m.vitals.insert(id, vitals),
        progressions: m.progressions.insert(id, progression),
        attempts: m.attempts.insert(id, zero_attempts()),
        towns: m.towns.insert(id, 0),
        regeneration: m.regeneration.insert(id, PlayerRegenerationSchedule { health_elapsed_seconds: 0, mana_elapsed_seconds: 0 }),
        conditions: m.conditions.insert(id, Map::<u8, ConditionView>::empty()),
        respawn_states: m.respawn_states.insert(id, living_state()),
        equipments: m.equipments.insert(id, Map::empty()),
        containers: m.containers.insert(id, Map::empty()),
        defenses: m.defenses.insert(id, PlayerCombatDefense { physical_flat_reduction: 0 }),
        fight_modes: m.fight_modes.insert(id, default_fight_mode()),
        combat_cooldowns: m.combat_cooldowns.insert(id, PlayerCombatCooldown { next_attack_tick: 0 }),
        spell_cooldowns: m.spell_cooldowns.insert(id, PlayerSpellCooldown { next_cast_tick: 0 }),
        revision: bumped(m.revision),
        ..m
    }
}

/// Whether a known player is dead, or the lookup error.
pub open spec fn dead_state(m: WorldModel, id: u64) -> Result<bool, CoreError> {
    if m.respawn_states.contains_key(id) { Ok(m.respawn_states[id].dead) } else { Err(CoreError::UnknownPlayer(id)) }
}

/// The stored intent of a known player (empty when none is stored).
pub open spec fn current_intent(m: WorldModel, id: u64) -> PlayerInteractionIntent {
    if m.interactions.contains_key(id) { m.interactions[id] } else { empty_intent() }
}

/// An intent table after storing `intent`; empty intents are not stored.
pub open spec fn stored_intents(m: Map<u64, PlayerInteractionIntent>, id: u64, intent: PlayerInteractionIntent)
    -> Map<u64, PlayerInteractionIntent> {
    if intent == empty_intent() { m.remove(id) } else { m.insert(id, intent) }
}

/// The intent after selecting a player target (`replace_target`) or a player to follow.
pub open spec fn selected_intent(prev: PlayerInteractionIntent, target: Option<u64>, follow: Option<u64>,
    replace_target: bool) -> PlayerInteractionIntent {
    if replace_target {
        PlayerInteractionIntent { target_player_id: target, target_static_creature_id: None, ..prev }
    } else {
        PlayerInteractionIntent { follow_player_id: follow, target_static_creature_id: None, ..prev }
    }
}

/// The refusal of a player-to-player selection, if any.
pub open spec fn selection_error(m: WorldModel, player_id: u64, selected: Option<u64>) -> Option<CoreError> {
    if !m.players.contains_key(player_id) {
        Some(CoreError::UnknownPlayer(player_id))
    } else if selected is Some && dead_state(m, player_id) is Err {
        Some(CoreError::UnknownPlayer(player_id))
    } else if selected is Some && dead_state(m, player_id) == Ok::<bool, CoreError>(true) {
        Some(CoreError::PlayerIsDead(player_id))
    } else {
        match selected {
            None => None,
            Some(s) => if s == player_id {
                Some(CoreError::SelfInteractionNotAllowed(player_id))
            } else if !m.players.contains_key(s) {
                Some(CoreError::UnknownPlayer(s))
            } else if dead_state(m, s) is Err {
                Some(CoreError::UnknownPlayer(s))
            } else if dead_state(m, s) == Ok::<bool, CoreError>(true) {
                Some(CoreError::SelectedPlayerIsDead(s))
            } else {
                None
            },
        }
    }
}

/// The world after an accepted intent change; the revision moves only when the intent changed.
pub open spec fn with_intent(m: WorldModel, id: u64, intent: PlayerInteractionIntent) -> WorldModel {
    WorldModel {
        interactions: stored_intents(m.interactions, id, intent),
        revision: if current_intent(m, id) != intent { bumped(m.revision) } else { m.revision },
        ..m
    }
}

pub open spec fn health_percent_of(v: PlayerVitals) -> u8 {
    let max = if v.max_health == 0 { 1int } else { v.max_health as int };
    let p = (v.health as int * 100) / max;
    (if p > 100 { 100 } else { p }) as u8
}

/// The contract of an experience award.
pub open spec fn award_ensures(m: WorldModel, f: WorldModel, player_id: u64, raw: u64, policy: ExperienceAwardPolicy,
    gains: VocationLevelUpGains, r: Result<PlayerExperienceAwardOutcome, CoreError>) -> bool {
    if !(m.vitals.contains_key(player_id) && m.players.contains_key(player_id)) {
        r == Err::<PlayerExperienceAwardOutcome, CoreError>(CoreError::UnknownPlayer(player_id)) && f == m
    } else {
        let before = m.players[player_id];
        let awarded = policy.spec_award_for(before.level, raw);
        &&& r is Ok
        &&& {
            let o = r->Ok_0;
            let after = if awarded > 0 { f.players[player_id] } else { before };
            &&& o.player_id == player_id
            &&& o.raw_experience == raw
            &&& o.awarded_experience == awarded
            &&& o.experience == after.experience
            &&& o.level == after.level
            &&& o.gained_levels == (if after.level >= before.level { (after.level - before.level) as u32 } else { 0u32 })
            &&& o.vitals == gains_applied(gains, m.vitals[player_id], o.gained_levels)
            &&& awarded > 0 ==> {
                &&& after.experience == crate::progression::sat_add(before.experience as int, awarded as int, u64::MAX as int)
                &&& after.level >= 1
                &&& level_reachable(after.level, after.experience)
                &&& (after.level == u32::MAX || !level_reachable((after.level + 1) as u32, after.experience))
                &&& after == (Player { experience: after.experience, level: after.level, ..before })
            }
            &&& f == (WorldModel {
                players: if awarded > 0 { m.players.insert(player_id, after) } else { m.players },
                vitals: if o.gained_levels > 0 { m.vitals.insert(player_id, o.vitals) } else { m.vitals },
                revision: if awarded > 0 { bumped(m.revision) } else { m.revision },
                ..m
            })
        }
    }
}

/// An intent with every reference to an unavailable player cleared.
pub open spec fn intent_without(i: PlayerInteractionIntent, p: u64) -> PlayerInteractionIntent {
    PlayerInteractionIntent {
        target_player_id: if i.target_player_id == Some(p) { None } else { i.target_player_id },
        follow_player_id: if i.follow_player_id == Some(p) { None } else { i.follow_player_id },
        ..i
    }
}

/// Intents with references to `p` cleared; intents left empty are dropped.
pub open spec fn intents_without(m: Map<u64, PlayerInteractionIntent>, p: u64) -> Map<u64, PlayerInteractionIntent> {
    Map::new(|k: u64| m.contains_key(k) && intent_without(m[k], p) != empty_intent(), |k: u64| intent_without(m[k], p))
}

/// Static creatures with every target on player `p` cleared.
pub open spec fn creatures_untargeting(m: Map<u32, StaticCreatureRuntime>, p: u64) -> Map<u32, StaticCreatureRuntime> {
    Map::new(|k: u32| m.contains_key(k), |k: u32| if m[k].target_player_id == Some(p) {
        StaticCreatureRuntime { target_player_id: None, ..m[k] } } else { m[k] })
}

/// The world after a player is removed, before party state is cleared.
pub open spec fn without_player(m: WorldModel, id: u64) -> WorldModel {
    WorldModel {
        players: m.players.remove(id),
        vitals: m.vitals.remove(id),
        progressions: m.progressions.remove(id),
        attempts: m.attempts.remove(id),
        towns: m.towns.remove(id),
        regeneration: m.regeneration.remove(id),
        conditions: m.conditions.remove(id),
        respawn_states: m.respawn_states.remove(id),
        equipments: m.equipments.remove(id),
        containers: m.containers.remove(id),
        defenses: m.defenses.remove(id),
        fight_modes: m.fight_modes.remove(id),
        combat_cooldowns: m.combat_cooldowns.remove(id),
        spell_cooldowns: m.spell_cooldowns.remove(id),
        interactions: intents_without(m.interactions.remove(id), id),
        static_creatures: creatures_untargeting(m.static_creatures, id),
        revision: bumped(m.revision),
        ..m
    }
}

impl WorldState {
    pub fn add_player(&mut self, player: Player) -> (r: Result<(), CoreError>)
        ensures
            match registration_error(old(self)@, player, default_vitals()) {
                Some(e) => r == Err::<(), CoreError>(e) && final(self)@ == old(self)@,
                None => r is Ok && final(self)@ == with_new_player(old(self)@, player, default_vitals(), initial_progression()),
            },
    {
        self.add_player_with_vitals(player, PlayerVitals::default())
    }

    pub fn add_player_with_vitals(&mut self, player: Player, vitals: PlayerVitals) -> (r: Result<(), CoreError>)
        ensures
            match registration_error(old(self)@, player, vitals) {
                Some(e) => r == Err::<(), CoreError>(e) && final(self)@ == old(self)@,
                None => r is Ok && final(self)@ == with_new_player(old(self)@, player, vitals, initial_progression()),
            },
    {
        self.add_player_with_vitals_and_progression(player, vitals, PlayerProgression::initial())
    }

    /// Registers a player with explicit vitals and progression and fresh per-player state. A blank
    /// name, invalid vitals, a known identifier or an occupied position refuse the registration.
    pub fn add_player_with_vitals_and_progression(&mut self, player: Player, vitals: PlayerVitals,
        progression: PlayerProgression) -> (r: Result<(), CoreError>)
        ensures
            match registration_error(old(self)@, player, vitals) {
                Some(e) => r == Err::<(), CoreError>(e) && final(self)@ == old(self)@,
                None => r is Ok && final(self)@ == with_new_player(old(self)@, player, vitals, progression),
            },
    {
        if is_blank(player.name.as_str()) {
            return Err(CoreError::EmptyPlayerName);
        }
        if !vitals.is_valid() {
            return Err(CoreError::InvalidPlayerVitals(player.id));
        }
        if self.players.contains_key(&player.id) {
            return Err(CoreError::DuplicatePlayer(player.id));
        }
        if self.is_player_occupied(player.position) {
            return Err(CoreError::PlayerOccupiesPosition(player.position));
        }
        if self.is_static_creature_occupied(player.position) {
            return Err(CoreError::StaticCreatureOccupiesPosition(player.position));
        }
        let id = player.id;
        let ghost m0 = self@;
        self.player_vitals.insert(id, vitals);
        self.player_progressions.insert(id, progression);
        self.player_progression_attempts.insert(id, PlayerProgressionAttempts::default());
        self.player_towns.insert(id, 0);
        self.player_regeneration_schedules.insert(id,
            PlayerRegenerationSchedule { health_elapsed_seconds: 0, mana_elapsed_seconds: 0 });
        let no_conditions: crate::conditions::ConditionMap = BTreeMap::new();
        proof { assert(crate::conditions::condition_views(no_conditions@) =~= Map::<u8, ConditionView>::empty()); }
        self.player_conditions.insert(id, no_conditions);
        self.player_respawn_states.insert(id,
            PlayerRespawnState { dead: false, respawn_at: None, death_time: None, loss_applied: false });
        self.player_equipments.insert(id, PlayerEquipment::new());
        self.player_containers.insert(id, PlayerContainers::new());
        self.player_combat_defenses.insert(id, PlayerCombatDefense { physical_flat_reduction: 0 });
        self.player_fight_modes.insert(id,
            PlayerFightModeState { mode: PlayerFightMode::Attack, chase: false, secure: false });
        self.player_combat_cooldowns.insert(id, PlayerCombatCooldown { next_attack_tick: 0 });
        self.player_spell_cooldowns.insert(id, PlayerSpellCooldown { next_cast_tick: 0 });
        self.players.insert(id, player);
        self.mark_changed();
        proof {
            let want = with_new_player(m0, player, vitals, progression);
            assert(self@.conditions =~= want.conditions);
            assert(self@.equipments =~= want.equipments);
            assert(self@.containers =~= want.containers);
            assert(self@ =~= want);
        }
        Ok(())
    }

    /// True when a registered player stands on `position`.
    pub fn is_player_occupied(&self, position: Position) -> (r: bool)
        ensures
            r == position_taken(self@.players, position),
    {
        let ids = map_keys(&self.players);
        let mut i: usize = 0;
        while i < ids.len()
            invariant
                ids@.to_set() == self@.players.dom(),
                i <= ids@.len(),
                forall|j: int| 0 <= j < ids@.len() ==> self@.players.contains_key(#[trigger] ids@[j]),
                forall|k: u64| #[trigger] self@.players.contains_key(k) ==> ids@.contains(k),
                forall|j: int| 0 <= j < i ==> self@.players[#[trigger] ids@[j]].position != position,
            decreases ids.len() - i,
        {
            let id = ids[i];
            match self.players.get(&id) {
                Some(p) => {
                    if p.position == position {
                        return true;
                    }
                },
                None => {},
            }
            i = i + 1;
        }
        proof {
            assert forall|id: u64| self@.players.contains_key(id) implies #[trigger] self@.players[id].position != position by {
                assert(ids@.contains(id));
                let j = choose|j: int| 0 <= j < ids@.len() && ids@[j] == id;
                assert(self@.players[ids@[j]].position != position);
            }
        }
        false
    }

    /// The identifiers of every registered player, ascending.
    pub fn registered_player_ids(&self) -> (r: Vec<u64>)
        ensures
            r@.to_set() == self@.players.dom(),
            strictly_increasing(r@),
    {
        map_keys(&self.players)
    }

    /// A detached identifier-to-position table of every registered player.
    pub fn player_positions(&self) -> (r: BTreeMap<u64, Position>)
        ensures
            r@.dom() == self@.players.dom(),
            forall|id: u64| #[trigger] r@.contains_key(id) ==> r@[id] == self@.players[id].position,
    {
        let ids = map_keys(&self.players);
        let mut out: BTreeMap<u64, Position> = BTreeMap::new();
        let mut i: usize = 0;
        while i < ids.len()
            invariant
                i <= ids@.len(),
                forall|j: int| 0 <= j < ids@.len() ==> self@.players.contains_key(#[trigger] ids@[j]),
                forall|j: int| 0 <= j < i ==> out@.contains_key(#[trigger] ids@[j]),
                forall|id: u64| #[trigger] out@.contains_key(id) ==> self@.players.contains_key(id)
                    && out@[id] == self@.players[id].position,
            decreases ids.len() - i,
        {
            let id = ids[i];
            let p = self.players.get(&id).unwrap();
            out.insert(id, p.position);
            i = i + 1;
        }
        proof {
            assert forall|id: u64| self@.players.contains_key(id) implies out@.contains_key(id) by {
                assert(ids@.contains(id));
            }
            assert(out@.dom() =~= self@.players.dom());
        }
        out
    }

    /// Display data of every registered player, in identifier order.
    pub fn player_render_snapshots(&self) -> (r: Vec<PlayerRenderSnapshot>)
        ensures
            r@.len() == self@.players.dom().len(),
            forall|i: int| 0 <= i < r@.len() ==> {
                let s = #[trigger] r@[i];
                &&& self@.players.contains_key(s.id)
                &&& s.name@ == self@.players[s.id].name@
                &&& s.position == self@.players[s.id].position
                &&& s.level == self@.players[s.id].level
                &&& s.health_percent == health_percent_of(
                    if self@.vitals.contains_key(s.id) { self@.vitals[s.id] } else { default_vitals() })
            },
            forall|i: int, j: int| 0 <= i < j < r@.len() ==> r@[i].id < r@[j].id,
    {
        let ids = map_keys(&self.players);
        let mut out: Vec<PlayerRenderSnapshot> = Vec::new();
        let mut i: usize = 0;
        while i < ids.len()
            invariant
                i <= ids@.len(),
                out@.len() == i,
                strictly_increasing(ids@),
                forall|j: int| 0 <= j < ids@.len() ==> self@.players.contains_key(#[trigger] ids@[j]),
                forall|j: int| 0 <= j < out@.len() ==> (#[trigger] out@[j]).id == ids@[j],
                forall|j: int| 0 <= j < out@.len() ==> {
                    let s = #[trigger] out@[j];
                    &&& self@.players.contains_key(s.id)
                    &&& s.name@ == self@.players[s.id].name@
                    &&& s.position == self@.players[s.id].position
                    &&& s.level == self@.players[s.id].level
                    &&& s.health_percent == health_percent_of(
                        if self@.vitals.contains_key(s.id) { self@.vitals[s.id] } else { default_vitals() })
                },
            decreases ids.len() - i,
        {
            let id = ids[i];
            let p = self.players.get(&id).unwrap();
            let vitals = match self.player_vitals.get(&id) {
                Some(v) => *v,
                None => PlayerVitals::default(),
            };
            let max = if vitals.max_health == 0 { 1u32 } else { vitals.max_health as u32 };
            let pct = (vitals.health as u32 * 100) / max;
            let health_percent: u8 = if pct > 100 { 100 } else { pct as u8 };
            out.push(PlayerRenderSnapshot {
                id,
                name: p.name.clone(),
                position: p.position,
                level: p.level,
                health_percent,
            });
            i = i + 1;
        }
        proof {
            assert(ids@.len() == self@.players.dom().len());
        }
        out
    }

    /// The stored interaction intent of a known player (empty when none is stored).
    pub fn player_interaction_intent(&self, player_id: u64) -> (r: Result<PlayerInteractionIntent, CoreError>)
        ensures
            !self@.players.contains_key(player_id) ==> r == Err::<PlayerInteractionIntent, CoreError>(CoreError::UnknownPlayer(player_id)),
            self@.players.contains_key(player_id) ==> r == Ok::<PlayerInteractionIntent, CoreError>(current_intent(self@, player_id)),
    {
        if !self.players.contains_key(&player_id) {
            return Err(CoreError::UnknownPlayer(player_id));
        }
        match self.player_interactions.get(&player_id) {
            Some(i) => Ok(*i),
            None => Ok(PlayerInteractionIntent::empty()),
        }
    }

    pub fn player_respawn_state(&self, player_id: u64) -> (r: Result<PlayerRespawnState, CoreError>)
        ensures
            r == lookup(self@.respawn_states, player_id),
    {
        match self.player_respawn_states.get(&player_id) {
            Some(v) => Ok(*v),
            None => Err(CoreError::UnknownPlayer(player_id)),
        }
    }

    fn is_dead(&self, player_id: u64) -> (r: Result<bool, CoreError>)
        ensures
            r == dead_state(self@, player_id),
    {
        let state = self.player_respawn_state(player_id)?;
        Ok(state.dead)
    }

    fn set_player_interaction(&mut self, player_id: u64, target_player_id: Option<u64>,
        follow_player_id: Option<u64>, replace_target: bool) -> (r: Result<PlayerInteractionIntent, CoreError>)
        ensures
            ({
                let selected = if replace_target { target_player_id } else { follow_player_id };
                match selection_error(old(self)@, player_id, selected) {
                    Some(e) => r == Err::<PlayerInteractionIntent, CoreError>(e) && final(self)@ == old(self)@,
                    None => {
                        let intent = selected_intent(current_intent(old(self)@, player_id), target_player_id,
                            follow_player_id, replace_target);
                        &&& r == Ok::<PlayerInteractionIntent, CoreError>(intent)
                        &&& final(self)@ == with_intent(old(self)@, player_id, intent)
                    },
                }
            }),
    {
        if !self.players.contains_key(&player_id) {
            return Err(CoreError::UnknownPlayer(player_id));
        }
        let previous = self.player_interaction_intent(player_id)?;
        let selected_player_id = if replace_target { target_player_id } else { follow_player_id };
        if selected_player_id.is_some() && self.is_dead(player_id)? {
            return Err(CoreError::PlayerIsDead(player_id));
        }
        if let Some(selected) = selected_player_id {
            if selected == player_id {
                return Err(CoreError::SelfInteractionNotAllowed(player_id));
            }
            if !self.players.contains_key(&selected) {
                return Err(CoreError::UnknownPlayer(selected));
            }
            if self.is_dead(selected)? {
                return Err(CoreError::SelectedPlayerIsDead(selected));
            }
        }
        let intent = if replace_target {
            PlayerInteractionIntent { target_player_id, target_static_creature_id: None, ..previous }
        } else {
            PlayerInteractionIntent { follow_player_id, target_static_creature_id: None, ..previous }
        };
        if intent.is_empty() {
            self.player_interactions.remove(&player_id);
        } else {
            self.player_interactions.insert(player_id, intent);
        }
        if previous != intent {
            self.mark_changed();
        }
        proof {
            assert(self@ =~= with_intent(old(self)@, player_id, intent));
        }
        Ok(intent)
    }

    /// Selects (or clears) a player target; following is kept, a creature target is dropped.
    pub fn set_player_target(&mut self, player_id: u64, target_player_id: Option<u64>)
        -> (r: Result<PlayerInteractionIntent, CoreError>)
        ensures
            match selection_error(old(self)@, player_id, target_player_id) {
                Some(e) => r == Err::<PlayerInteractionIntent, CoreError>(e) && final(self)@ == old(self)@,
                None => {
                    let intent = selected_intent(current_intent(old(self)@, player_id), target_player_id, None, true);
                    &&& r == Ok::<PlayerInteractionIntent, CoreError>(intent)
                    &&& final(self)@ == with_intent(old(self)@, player_id, intent)
                },
            },
    {
        self.set_player_interaction(player_id, target_player_id, None, true)
    }

    /// Selects (or clears) a player to follow; a player target is kept, a creature target dropped.
    pub fn set_player_follow(&mut self, player_id: u64, follow_player_id: Option<u64>)
        -> (r: Result<PlayerInteractionIntent, CoreError>)
        ensures
            match selection_error(old(self)@, player_id, follow_player_id) {
                Some(e) => r == Err::<PlayerInteractionIntent, CoreError>(e) && final(self)@ == old(self)@,
                None => {
                    let intent = selected_intent(current_intent(old(self)@, player_id), None, follow_player_id, false);
                    &&& r == Ok::<PlayerInteractionIntent, CoreError>(intent)
                    &&& final(self)@ == with_intent(old(self)@, player_id, intent)
                },
            },
    {
        self.set_player_interaction(player_id, None, follow_player_id, false)
    }

    /// Selects (or clears) an active static creature as the only target of a player.
    pub fn set_player_static_target(&mut self, player_id: u64, target_static_creature_id: Option<u32>)
        -> (r: Result<PlayerInteractionIntent, CoreError>)
        ensures
            ({
                let m = old(self)@;
                let intent = PlayerInteractionIntent {
                    target_player_id: None,
                    target_static_creature_id,
                    follow_player_id: None,
                };
                let refusal = if !m.players.contains_key(player_id) {
                    Some(CoreError::UnknownPlayer(player_id))
                } else {
                    match target_static_creature_id {
                        None => None,
                        Some(c) => match dead_state(m, player_id) {
                            Err(e) => Some(e),
                            Ok(true) => Some(CoreError::PlayerIsDead(player_id)),
                            Ok(false) => if !m.static_creatures.contains_key(c) {
                                Some(CoreError::UnknownStaticCreature(c))
                            } else if !m.static_creatures[c].active {
                                Some(CoreError::InactiveStaticCreature(c))
                            } else {
                                None
                            },
                        },
                    }
                };
                match refusal {
                    Some(e) => r == Err::<PlayerInteractionIntent, CoreError>(e) && final(self)@ == m,
                    None => r == Ok::<PlayerInteractionIntent, CoreError>(intent) && final(self)@ == with_intent(m, player_id, intent),
                }
            }),
    {
        if !self.players.contains_key(&player_id) {
            return Err(CoreError::UnknownPlayer(player_id));
        }
        if target_static_creature_id.is_some() && self.is_dead(player_id)? {
            return Err(CoreError::PlayerIsDead(player_id));
        }
        if let Some(creature_id) = target_static_creature_id {
            match self.static_creatures.get(&creature_id) {
                None => {
                    return Err(CoreError::UnknownStaticCreature(creature_id));
                },
                Some(target) => {
                    if !target.active {
                        return Err(CoreError::InactiveStaticCreature(creature_id));
                    }
                },
            }
        }
        let previous = self.player_interaction_intent(player_id)?;
        let intent = PlayerInteractionIntent {
            target_player_id: None,
            target_static_creature_id,
            follow_player_id: None,
        };
        if intent.is_empty() {
            self.player_interactions.remove(&player_id);
        } else {
            self.player_interactions.insert(player_id, intent);
        }
        if previous != intent {
            self.mark_changed();
        }
        proof {
            assert(self@ =~= with_intent(old(self)@, player_id, intent));
        }
        Ok(intent)
    }
    /// Applies an experience policy to a known player with no vocation gains.
    pub fn award_player_experience(&mut self, player_id: u64, raw_experience: u64, policy: &ExperienceAwardPolicy)
        -> (r: Result<PlayerExperienceAwardOutcome, CoreError>)
        ensures
            award_ensures(old(self)@, final(self)@, player_id, raw_experience, *policy,
                VocationLevelUpGains { health: 0, mana: 0, capacity: 0 }, r),
    {
        self.award_player_experience_with_vocation_gains(player_id, raw_experience, policy,
            VocationLevelUpGains::new(0, 0, 0))
    }

    /// Applies an experience policy and per-level vocation gains in one transition. Gains are
    /// applied only when the level really rises; the revision moves only when experience was awarded.
    pub fn award_player_experience_with_vocation_gains(&mut self, player_id: u64, raw_experience: u64,
        policy: &ExperienceAwardPolicy, gains: VocationLevelUpGains) -> (r: Result<PlayerExperienceAwardOutcome, CoreError>)
        ensures
            award_ensures(old(self)@, final(self)@, player_id, raw_experience, *policy, gains, r),
    {
        let current_vitals = match self.player_vitals.get(&player_id) {
            Some(v) => *v,
            None => { return Err(CoreError::UnknownPlayer(player_id)); },
        };
        let mut player = match self.players.get(&player_id) {
            Some(p) => p.duplicate(),
            None => { return Err(CoreError::UnknownPlayer(player_id)); },
        };
        let previous_level = player.level;
        let awarded_experience = policy.award_for(player.level, raw_experience);
        if awarded_experience > 0 {
            player.add_experience(awarded_experience);
        }
        let experience = player.experience;
        let level = player.level;
        let gained_levels = level.saturating_sub(previous_level);
        if awarded_experience > 0 {
            self.players.insert(player_id, player);
        }
        let vitals = gains.apply(current_vitals, gained_levels);
        if gained_levels > 0 {
            self.player_vitals.insert(player_id, vitals);
        }
        if awarded_experience > 0 {
            self.mark_changed();
        }
        Ok(PlayerExperienceAwardOutcome {
            player_id,
            raw_experience,
            awarded_experience,
            experience,
            level,
            gained_levels,
            vitals,
        })
    }
    /// Clears target and follow references to a player who is no longer available.
    pub(crate) fn clear_player_interaction_references(&mut self, unavailable_player_id: u64)
        ensures
            final(self)@ == (WorldModel {
                interactions: intents_without(old(self)@.interactions, unavailable_player_id),
                ..old(self)@
            }),
    {
        let ghost m = self@;
        let ids = map_keys(&self.player_interactions);
        let mut i: usize = 0;
        while i < ids.len()
            invariant
                i <= ids@.len(),
                strictly_increasing(ids@),
                ids@.to_set() == m.interactions.dom(),
                forall|j: int| 0 <= j < ids@.len() ==> m.interactions.contains_key(#[trigger] ids@[j]),
                self@ == (WorldModel { interactions: self@.interactions, ..m }),
                forall|k: u64| #[trigger] self@.interactions.contains_key(k) ==> m.interactions.contains_key(k),
                forall|k: u64| m.interactions.contains_key(k) && !ids@.take(i as int).to_set().contains(k)
                    ==> #[trigger] self@.interactions.contains_key(k) && self@.interactions[k] == m.interactions[k],
                forall|k: u64| ids@.take(i as int).to_set().contains(k) ==> (#[trigger] self@.interactions.contains_key(k)
                    == intents_without(m.interactions, unavailable_player_id).contains_key(k))
                    && (self@.interactions.contains_key(k) ==> self@.interactions[k] == intent_without(m.interactions[k], unavailable_player_id)),
            decreases ids.len() - i,
        {
            let k = ids[i];
            proof {
                assert(!ids@.take(i as int).to_set().contains(k)) by {
                    if ids@.take(i as int).to_set().contains(k) {
                        let q = choose|q: int| 0 <= q < ids@.take(i as int).len() && ids@.take(i as int)[q] == k;
                        assert(ids@[q] < ids@[i as int]);
                    }
                }
                assert(ids@.take(i + 1) =~= ids@.take(i as int).push(k));
                ids@.take(i as int).lemma_push_to_set_commute(k);
            }
            let current = *self.player_interactions.get(&k).unwrap();
            let target = if current.target_player_id == Some(unavailable_player_id) { None } else { current.target_player_id };
            let follow = if current.follow_player_id == Some(unavailable_player_id) { None } else { current.follow_player_id };
            let updated = PlayerInteractionIntent { target_player_id: target, follow_player_id: follow, ..current };
            let ghost before = self@.interactions;
            assert(forall|x: u64| m.interactions.contains_key(x) && !ids@.take(i as int).to_set().contains(x)
                ==> #[trigger] before.contains_key(x) && before[x] == m.interactions[x]);
            if updated.is_empty() {
                self.player_interactions.remove(&k);
            } else {
                self.player_interactions.insert(k, updated);
            }
            proof {
                assert forall|x: u64| m.interactions.contains_key(x) && !ids@.take(i + 1).to_set().contains(x)
                    implies #[trigger] self@.interactions.contains_key(x) && self@.interactions[x] == m.interactions[x] by {
                    assert(ids@.take(i + 1).to_set() == ids@.take(i as int).to_set().insert(k));
                    assert(!ids@.take(i as int).to_set().contains(x));
                    assert(before.contains_key(x));
                    assert(before[x] == m.interactions[x]);
                    assert(x != k);
                }
            }
            i = i + 1;
        }
        proof {
            assert(ids@.take(ids@.len() as int) =~= ids@);
            assert forall|k: u64| m.interactions.contains_key(k) implies ids@.contains(k) by {
                assert(ids@.to_set().contains(k));
            }
            assert(self@.interactions =~= intents_without(m.interactions, unavailable_player_id));
        }
    }

    /// Clears every static creature's target on a player.
    pub(crate) fn clear_static_targets_on(&mut self, player_id: u64)
        ensures
            final(self)@ == (WorldModel {
                static_creatures: creatures_untargeting(old(self)@.static_creatures, player_id),
                ..old(self)@
            }),
    {
        let ghost m = self@;
        let ids = map_keys_u32(&self.static_creatures);
        let mut i: usize = 0;
        while i < ids.len()
            invariant
                i <= ids@.len(),
                strictly_increasing_u32(ids@),
                ids@.to_set() == m.static_creatures.dom(),
                forall|j: int| 0 <= j < ids@.len() ==> m.static_creatures.contains_key(#[trigger] ids@[j]),
                self@ == (WorldModel { static_creatures: self@.static_creatures, ..m }),
                self@.static_creatures.dom() == m.static_creatures.dom(),
                forall|k: u32| #[trigger] self@.static_creatures.contains_key(k) ==> self@.static_creatures[k] == (
                    if ids@.take(i as int).contains(k) { creatures_untargeting(m.static_creatures, player_id)[k] }
                    else { m.static_creatures[k] }),
            decreases ids.len() - i,
        {
            let k = ids[i];
            proof {
                assert(!ids@.take(i as int).contains(k)) by {
                    if ids@.take(i as int).contains(k) {
                        let q = choose|q: int| 0 <= q < i && ids@.take(i as int)[q] == k;
                        assert(ids@[q] < ids@[i as int]);
                    }
                }
                assert(ids@.take(i + 1) =~= ids@.take(i as int).push(k));
                ids@.take(i as int).lemma_push_to_set_commute(k);
                assert forall|x: u32| ids@.take(i + 1).contains(x) <==> (ids@.take(i as int).contains(x) || x == k) by {
                    assert(ids@.take(i + 1).contains(x) <==> ids@.take(i + 1).to_set().contains(x));
                    assert(ids@.take(i as int).contains(x) <==> ids@.take(i as int).to_set().contains(x));
                }
            }
            let mut runtime = self.static_creatures.remove(&k).unwrap();
            if runtime.target_player_id == Some(player_id) {
                runtime.target_player_id = None;
            }
            self.static_creatures.insert(k, runtime);
            proof {
                assert(self@.static_creatures.dom() =~= m.static_creatures.dom());
            }
            i = i + 1;
        }
        proof {
            assert(ids@.take(ids@.len() as int) =~= ids@);
            assert forall|k: u32| m.static_creatures.contains_key(k) implies ids@.contains(k) by {
                assert(ids@.to_set().contains(k));
            }
            assert(self@.static_creatures =~= creatures_untargeting(m.static_creatures, player_id));
        }
    }

    /// Removes a player with every per-player table, party membership and reference to it.
    pub fn remove_player(&mut self, id: u64) -> (r: Result<Player, CoreError>)
        ensures
            creatures_sound(old(self)@) ==> creatures_sound(final(self)@),
            !old(self)@.players.contains_key(id) ==> r == Err::<Player, CoreError>(CoreError::UnknownPlayer(id))
                && final(self)@ == old(self)@,
            old(self)@.players.contains_key(id) ==> {
                let w = without_player(old(self)@, id);
                let c = party_cleared(old(self)@, id);
                &&& r == Ok::<Player, CoreError>(old(self)@.players[id])
                &&& final(self)@ == (WorldModel {
                    party_leaders: c.party_leaders,
                    party_memberships: c.party_memberships,
                    party_invitations: c.party_invitations,
                    shared_requested: c.shared_requested,
                    shared_activity: c.shared_activity,
                    ..w
                })
            },
            party_consistent(old(self)@) ==> party_consistent(final(self)@),
    {
        if !self.players.contains_key(&id) {
            return Err(CoreError::UnknownPlayer(id));
        }
        let ghost m0 = old(self)@;
        self.clear_player_party_state(id);
        proof {
            lemma_party_cleared_frame(m0, id);
            if party_consistent(m0) {
                lemma_party_cleared_keeps_consistency(m0, id);
            }
        }
        let player = self.players.remove(&id).unwrap();
        self.player_vitals.remove(&id);
        self.player_progressions.remove(&id);
        self.player_progression_attempts.remove(&id);
        self.player_towns.remove(&id);
        self.player_regeneration_schedules.remove(&id);
        self.player_conditions.remove(&id);
        self.player_respawn_states.remove(&id);
        self.player_equipments.remove(&id);
        self.player_containers.remove(&id);
        self.player_combat_defenses.remove(&id);
        self.player_fight_modes.remove(&id);
        self.player_combat_cooldowns.remove(&id);
        self.player_spell_cooldowns.remove(&id);
        self.player_interactions.remove(&id);
        proof {
            assert(self@.conditions =~= m0.conditions.remove(id));
            assert(self@.equipments =~= m0.equipments.remove(id));
            assert(self@.containers =~= m0.containers.remove(id));
        }
        self.clear_player_interaction_references(id);
        self.clear_static_targets_on(id);
        self.mark_changed();
        proof {
            let w = without_player(m0, id);
            assert(self@ =~= (WorldModel {
                party_leaders: self@.party_leaders,
                party_memberships: self@.party_memberships,
                party_invitations: self@.party_invitations,
                shared_requested: self@.shared_requested,
                shared_activity: self@.shared_activity,
                ..w
            }));
        }
        Ok(player)
    }
}

} // verus!
