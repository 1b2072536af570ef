//! Player vitals, operator flags, food windows and bounded regeneration.

use vstd::prelude::*;
use crate::error::CoreError;
use crate::progression::{
    PlayerVitals, PlayerProgression, PlayerRegenerationRules, PlayerRegenerationOutcome, vitals_valid,
    schedule_advance, spec_regeneration_gain, advance_regeneration_schedule, regeneration_gain, sat_add, min_int,
    same_progression, MAX_REGENERATION_ELAPSED_SECONDS, FOOD_REGENERATION_INTERVAL_SECONDS,
    FOOD_REGENERATION_HEALTH_PER_INTERVAL,
};
use crate::keys::{set_keys, strictly_increasing};
use crate::world::{WorldState, WorldModel, PlayerFoodWindow, PlayerRegenerationSchedule, bumped, lookup};
use crate::world::lifecycle::dead_state;

verus! {

broadcast use {vstd::std_specs::btree::group_btree_axioms, vstd::laws_cmp::group_laws_cmp};

pub open spec fn sat_add_u16(a: u16, b: u16) -> u16 {
    sat_add(a as int, b as int, u16::MAX as int) as u16
}

/// Regeneration schedules and vitals after an elapsed period, with the health and mana gained.
pub open spec fn regenerated(v: PlayerVitals, s: PlayerRegenerationSchedule, rules: PlayerRegenerationRules, e: u16)
    -> (PlayerRegenerationSchedule, u16, u16, PlayerVitals) {
    let (health_events, health_rest) = schedule_advance(s.health_elapsed_seconds, rules.health.interval_seconds, e);
    let (mana_events, mana_rest) = schedule_advance(s.mana_elapsed_seconds, rules.mana.interval_seconds, e);
    let health_gained = spec_regeneration_gain(v.health, v.max_health, rules.health.amount, health_events);
    let mana_gained = spec_regeneration_gain(v.mana, v.max_mana, rules.mana.amount, mana_events);
    (
        PlayerRegenerationSchedule { health_elapsed_seconds: health_rest, mana_elapsed_seconds: mana_rest },
        health_gained,
        mana_gained,
        PlayerVitals { health: sat_add_u16(v.health, health_gained), mana: sat_add_u16(v.mana, mana_gained), ..v },
    )
}

/// A food window after an elapsed period and the health it restores (capped by the room left).
pub open spec fn fed(w: PlayerFoodWindow, v: PlayerVitals, e: u16) -> (PlayerFoodWindow, u16) {
    let total = sat_add_u16(w.elapsed_seconds, e);
    let intervals = total / FOOD_REGENERATION_INTERVAL_SECONDS;
    if intervals > 0 {
        let room = if v.max_health >= v.health { (v.max_health - v.health) as int } else { 0 };
        let gain = min_int(min_int(FOOD_REGENERATION_HEALTH_PER_INTERVAL * intervals, u16::MAX as int), room) as u16;
        (PlayerFoodWindow { elapsed_seconds: total % FOOD_REGENERATION_INTERVAL_SECONDS, ..w }, gain)
    } else {
        (PlayerFoodWindow { elapsed_seconds: total, ..w }, 0u16)
    }
}

impl WorldState {
    /// Replaces the vitals of a known player with valid vitals; identical vitals change nothing.
    pub fn update_player_vitals(&mut self, player_id: u64, vitals: PlayerVitals) -> (r: Result<(), CoreError>)
        ensures
            !vitals_valid(vitals) ==> r == Err::<(), CoreError>(CoreError::InvalidPlayerVitals(player_id)),
            vitals_valid(vitals) && !(old(self)@.players.contains_key(player_id) && old(self)@.vitals.contains_key(player_id))
                ==> r == Err::<(), CoreError>(CoreError::UnknownPlayer(player_id)),
            r is Err ==> final(self)@ == old(self)@,
            vitals_valid(vitals) && old(self)@.players.contains_key(player_id) && old(self)@.vitals.contains_key(player_id)
                ==> r is Ok && final(self)@ == (if old(self)@.vitals[player_id] == vitals { old(self)@ } else {
                    WorldModel { vitals: old(self)@.vitals.insert(player_id, vitals),
                        revision: bumped(old(self)@.revision), ..old(self)@ } }),
    {
        if !vitals.is_valid() {
            return Err(CoreError::InvalidPlayerVitals(player_id));
        }
        if !self.players.contains_key(&player_id) {
            return Err(CoreError::UnknownPlayer(player_id));
        }
        let current = self.player_vitals(player_id)?;
        if current == vitals {
            return Ok(());
        }
        self.player_vitals.insert(player_id, vitals);
        self.mark_changed();
        Ok(())
    }

    /// Starts a food window unless one is still running; `Ok(false)` means the player is full.
    pub fn grant_player_food_window(&mut self, player_id: u64, seconds: u16) -> (r: Result<bool, CoreError>)
        ensures
            seconds == 0 ==> r == Err::<bool, CoreError>(CoreError::InvalidRegenerationInterval),
            seconds != 0 && !old(self)@.players.contains_key(player_id) ==> r == Err::<bool, CoreError>(CoreError::UnknownPlayer(player_id)),
            r is Err ==> final(self)@ == old(self)@,
            seconds != 0 && old(self)@.players.contains_key(player_id) ==> {
                let running = old(self)@.food_windows.contains_key(player_id)
                    && old(self)@.food_windows[player_id].until_tick > old(self)@.tick;
                &&& r == Ok::<bool, CoreError>(!running)
                &&& running ==> final(self)@ == old(self)@
                &&& !running ==> final(self)@ == (WorldModel {
                    food_windows: old(self)@.food_windows.insert(player_id, PlayerFoodWindow {
                        until_tick: (if old(self)@.tick + seconds > u64::MAX { u64::MAX } else { (old(self)@.tick + seconds) as u64 }),
                        elapsed_seconds: 0 }),
                    revision: bumped(old(self)@.revision),
                    ..old(self)@
                })
            },
    {
        if seconds == 0 {
            return Err(CoreError::InvalidRegenerationInterval);
        }
        if !self.players.contains_key(&player_id) {
            return Err(CoreError::UnknownPlayer(player_id));
        }
        let now = self.tick;
        let running = match self.player_food_windows.get(&player_id) {
            Some(w) => w.until_tick > now,
            None => false,
        };
        if running {
            return Ok(false);
        }
        self.player_food_windows.insert(player_id,
            PlayerFoodWindow { until_tick: now.saturating_add(seconds as u64), elapsed_seconds: 0 });
        self.mark_changed();
        Ok(true)
    }

    /// Turns the operator god mode of a known player on or off and returns the new state.
    pub fn set_player_god_mode(&mut self, player_id: u64, enabled: bool) -> (r: Result<bool, CoreError>)
        ensures
            !old(self)@.players.contains_key(player_id) ==> r == Err::<bool, CoreError>(CoreError::UnknownPlayer(player_id))
                && final(self)@ == old(self)@,
            old(self)@.players.contains_key(player_id) ==> r == Ok::<bool, CoreError>(enabled) && final(self)@ == (WorldModel {
                god_mode: if enabled { old(self)@.god_mode.insert(player_id) } else { old(self)@.god_mode.remove(player_id) },
                revision: bumped(old(self)@.revision),
                ..old(self)@
            }),
    {
        if !self.players.contains_key(&player_id) {
            return Err(CoreError::UnknownPlayer(player_id));
        }
        if enabled {
            self.player_god_mode.insert(player_id);
        } else {
            self.player_god_mode.remove(&player_id);
        }
        self.mark_changed();
        Ok(enabled)
    }

    pub fn player_is_in_god_mode(&self, player_id: u64) -> (r: bool)
        ensures
            r == self@.god_mode.contains(player_id),
    {
        self.player_god_mode.contains(&player_id)
    }

    /// Turns the operator invisibility of a known player on or off and returns the new state.
    pub fn set_player_invisible(&mut self, player_id: u64, enabled: bool) -> (r: Result<bool, CoreError>)
        ensures
            !old(self)@.players.contains_key(player_id) ==> r == Err::<bool, CoreError>(CoreError::UnknownPlayer(player_id))
                && final(self)@ == old(self)@,
            old(self)@.players.contains_key(player_id) ==> r == Ok::<bool, CoreError>(enabled) && final(self)@ == (WorldModel {
                invisible: if enabled { old(self)@.invisible.insert(player_id) } else { old(self)@.invisible.remove(player_id) },
                revision: bumped(old(self)@.revision),
                ..old(self)@
            }),
    {
        if !self.players.contains_key(&player_id) {
            return Err(CoreError::UnknownPlayer(player_id));
        }
        if enabled {
            self.player_invisible.insert(player_id);
        } else {
            self.player_invisible.remove(&player_id);
        }
        self.mark_changed();
        Ok(enabled)
    }

    pub fn player_is_invisible(&self, player_id: u64) -> (r: bool)
        ensures
            r == self@.invisible.contains(player_id),
    {
        self.player_invisible.contains(&player_id)
    }

    /// Every invisible player, ascending.
    pub fn invisible_player_ids(&self) -> (r: Vec<u64>)
        ensures
            r@.to_set() == self@.invisible,
            strictly_increasing(r@),
    {
        set_keys(&self.player_invisible)
    }

    /// Ticks left in a running food window.
    pub fn player_food_window_remaining_ticks(&self, player_id: u64) -> (r: Option<u64>)
        ensures
            r == (if self@.food_windows.contains_key(player_id) && self@.food_windows[player_id].until_tick > self@.tick {
                Some((self@.food_windows[player_id].until_tick - self@.tick) as u64) } else { None }),
    {
        match self.player_food_windows.get(&player_id) {
            Some(w) => {
                if w.until_tick > self.tick { Some(w.until_tick - self.tick) } else { None }
            },
            None => None,
        }
    }

    /// Applies a bounded elapsed period (at most a minute) to a living player's health and mana
    /// schedules and running food window. Gains never exceed the maximum; the revision moves only
    /// when something was restored.
    pub fn apply_player_regeneration(&mut self, player_id: u64, rules: PlayerRegenerationRules, elapsed_seconds: u16)
        -> (r: Result<PlayerRegenerationOutcome, CoreError>)
        requires
            rules.health.interval_seconds > 0,
            rules.mana.interval_seconds > 0,
        ensures
            !old(self)@.vitals.contains_key(player_id) ==> r == Err::<PlayerRegenerationOutcome, CoreError>(CoreError::UnknownPlayer(player_id)),
            old(self)@.vitals.contains_key(player_id) && dead_state(old(self)@, player_id) is Err
                ==> r == Err::<PlayerRegenerationOutcome, CoreError>(CoreError::UnknownPlayer(player_id)),
            old(self)@.vitals.contains_key(player_id) && (dead_state(old(self)@, player_id) == Ok::<bool, CoreError>(true)
                || (dead_state(old(self)@, player_id) == Ok::<bool, CoreError>(false) && elapsed_seconds == 0))
                ==> r == Ok::<PlayerRegenerationOutcome, CoreError>(PlayerRegenerationOutcome { player_id,
                    health_gained: 0, mana_gained: 0, vitals: old(self)@.vitals[player_id] }),
            old(self)@.vitals.contains_key(player_id) && dead_state(old(self)@, player_id) == Ok::<bool, CoreError>(false)
                && elapsed_seconds > 0 && !old(self)@.regeneration.contains_key(player_id)
                ==> r == Err::<PlayerRegenerationOutcome, CoreError>(CoreError::UnknownPlayer(player_id)),
            r is Err || (r is Ok && r->Ok_0.health_gained == 0 && r->Ok_0.mana_gained == 0 && (elapsed_seconds == 0
                || dead_state(old(self)@, player_id) == Ok::<bool, CoreError>(true))) ==> final(self)@ == old(self)@,
            old(self)@.vitals.contains_key(player_id) && dead_state(old(self)@, player_id) == Ok::<bool, CoreError>(false)
                && elapsed_seconds > 0 && old(self)@.regeneration.contains_key(player_id) ==> {
                let e = if elapsed_seconds > MAX_REGENERATION_ELAPSED_SECONDS { MAX_REGENERATION_ELAPSED_SECONDS } else { elapsed_seconds };
                let v0 = old(self)@.vitals[player_id];
                let (schedule, health_gained, mana_gained, v1) = regenerated(v0, old(self)@.regeneration[player_id], rules, e);
                let feeding = old(self)@.food_windows.contains_key(player_id)
                    && old(self)@.food_windows[player_id].until_tick > old(self)@.tick;
                let (window, food_gained) = if feeding { fed(old(self)@.food_windows[player_id], v1, e) }
                    else { (PlayerFoodWindow { until_tick: 0, elapsed_seconds: 0 }, 0u16) };
                let v2 = PlayerVitals { health: sat_add_u16(v1.health, food_gained), ..v1 };
                let changed = health_gained > 0 || mana_gained > 0 || food_gained > 0;
                &&& r == Ok::<PlayerRegenerationOutcome, CoreError>(PlayerRegenerationOutcome { player_id,
                    health_gained: (health_gained + food_gained) as u16, mana_gained, vitals: v2 })
                &&& health_gained + food_gained <= u16::MAX
                &&& final(self)@ == (WorldModel {
                    regeneration: old(self)@.regeneration.insert(player_id, schedule),
                    food_windows: if feeding { old(self)@.food_windows.insert(player_id, window) } else { old(self)@.food_windows },
                    vitals: if changed { old(self)@.vitals.insert(player_id, v2) } else { old(self)@.vitals },
                    revision: if changed { bumped(old(self)@.revision) } else { old(self)@.revision },
                    ..old(self)@
                })
            },
    {
        let current = self.player_vitals(player_id)?;
        let dead = self.player_respawn_state(player_id)?.dead;
        if dead || elapsed_seconds == 0 {
            return Ok(PlayerRegenerationOutcome { player_id, health_gained: 0, mana_gained: 0, vitals: current });
        }
        let e = if elapsed_seconds > MAX_REGENERATION_ELAPSED_SECONDS { MAX_REGENERATION_ELAPSED_SECONDS } else { elapsed_seconds };
        let mut schedule = match self.player_regeneration_schedules.get(&player_id) {
            Some(s) => *s,
            None => { return Err(CoreError::UnknownPlayer(player_id)); },
        };
        let health_events = advance_regeneration_schedule(&mut schedule.health_elapsed_seconds,
            rules.health.interval_seconds, e);
        let mana_events = advance_regeneration_schedule(&mut schedule.mana_elapsed_seconds,
            rules.mana.interval_seconds, e);
        self.player_regeneration_schedules.insert(player_id, schedule);
        let health_gained = regeneration_gain(current.health, current.max_health, rules.health.amount, health_events);
        let mana_gained = regeneration_gain(current.mana, current.max_mana, rules.mana.amount, mana_events);
        let vitals = PlayerVitals {
            health: current.health.saturating_add(health_gained),
            mana: current.mana.saturating_add(mana_gained),
            ..current
        };
        let mut food_gained: u16 = 0;
        let window = match self.player_food_windows.get(&player_id) {
            Some(w) => Some(*w),
            None => None,
        };
        if let Some(mut w) = window {
            if w.until_tick > self.tick {
                let total = w.elapsed_seconds.saturating_add(e);
                let intervals = total / FOOD_REGENERATION_INTERVAL_SECONDS;
                if intervals > 0 {
                    w.elapsed_seconds = total % FOOD_REGENERATION_INTERVAL_SECONDS;
                    proof {
                        assert((FOOD_REGENERATION_HEALTH_PER_INTERVAL as u32) * (intervals as u32) <= 0xffffu32 * 0xffffu32)
                            by (nonlinear_arith) requires intervals <= 0xffffu16, FOOD_REGENERATION_HEALTH_PER_INTERVAL <= 0xffffu16;
                    }
                    let product = (FOOD_REGENERATION_HEALTH_PER_INTERVAL as u32) * (intervals as u32);
                    let wanted: u16 = if product > 0xffff { u16::MAX } else { product as u16 };
                    let room = vitals.max_health.saturating_sub(vitals.health);
                    food_gained = if wanted < room { wanted } else { room };
                } else {
                    w.elapsed_seconds = total;
                }
                self.player_food_windows.insert(player_id, w);
            }
        }
        let final_vitals = PlayerVitals { health: vitals.health.saturating_add(food_gained), ..vitals };
        if health_gained > 0 || mana_gained > 0 || food_gained > 0 {
            self.player_vitals.insert(player_id, final_vitals);
            self.mark_changed();
        }
        proof {
            assert(current.health + health_gained <= u16::MAX);
        }
        Ok(PlayerRegenerationOutcome {
            player_id,
            health_gained: health_gained + food_gained,
            mana_gained,
            vitals: final_vitals,
        })
    }

    /// Replaces vocation and skills of a known player; identical progression changes nothing.
    pub fn replace_player_progression(&mut self, player_id: u64, progression: PlayerProgression)
        -> (r: Result<bool, CoreError>)
        ensures
            !(old(self)@.players.contains_key(player_id) && old(self)@.progressions.contains_key(player_id))
                ==> r == Err::<bool, CoreError>(CoreError::UnknownPlayer(player_id)) && final(self)@ == old(self)@,
            old(self)@.players.contains_key(player_id) && old(self)@.progressions.contains_key(player_id) ==> {
                let same = old(self)@.progressions[player_id].vocation == progression.vocation
                    && old(self)@.progressions[player_id].skills@ == progression.skills@;
                &&& r == Ok::<bool, CoreError>(!same)
                &&& same ==> final(self)@ == old(self)@
                &&& !same ==> final(self)@ == (WorldModel {
                    progressions: old(self)@.progressions.insert(player_id, progression),
                    revision: bumped(old(self)@.revision),
                    ..old(self)@
                })
            },
    {
        if !self.players.contains_key(&player_id) {
            return Err(CoreError::UnknownPlayer(player_id));
        }
        let current = self.player_progression(player_id)?;
        if same_progression(&current, &progression) {
            return Ok(false);
        }
        self.player_progressions.insert(player_id, progression);
        self.mark_changed();
        Ok(true)
    }
}

} // verus!
