//! Damage-over-time conditions and haste on the authoritative world, and lethal condition ticks.

use vstd::prelude::*;
use std::collections::BTreeMap;
use crate::error::CoreError;
use crate::progression::{PlayerVitals, PlayerRespawnState, MAX_REGENERATION_ELAPSED_SECONDS, min_int};
use crate::conditions::{
    ConditionMap, ConditionView, PlayerCondition, PlayerConditionKind, PlayerConditionOutcome, condition_views,
    conditions_schedulable, pending_damage_from, conditions_after, expired_count, pending_condition_damage,
    advance_conditions, condition_kind_code, haste_valid, MAX_CONDITION_DURATION_SECONDS,
};
use crate::map::WorldMap;
use crate::world::{WorldState, WorldModel, bumped};
use crate::world::lifecycle::dead_state;
use crate::world::death::death_outcome;
use crate::map::WorldMapView;

verus! {

broadcast use {vstd::std_specs::btree::group_btree_axioms, vstd::laws_cmp::group_laws_cmp};

/// Model equality of two condition maps.
fn same_conditions(a: &ConditionMap, b: &ConditionMap) -> (r: bool)
    ensures
        r == (condition_views(a@) == condition_views(b@)),
{
    let mut code: u16 = 0;
    while code < 256
        invariant
            code <= 256,
            forall|c: u8| c < code ==> (#[trigger] a@.contains_key(c)) == b@.contains_key(c)
                && (a@.contains_key(c) ==> a@[c]@ == b@[c]@),
        decreases 256 - code,
    {
        let c = code as u8;
        assert(c == code);
        match (a.get(&c), b.get(&c)) {
            (Some(x), Some(y)) => {
                if *x != *y {
                    proof {
                        assert(condition_views(a@)[c] == x@);
                        assert(condition_views(b@)[c] == y@);
                        if x@ == y@ { x.lemma_view_determines(*y); }
                    }
                    return false;
                }
            },
            (None, None) => {},
            _ => {
                proof { assert(condition_views(a@).contains_key(c) != condition_views(b@).contains_key(c)); }
                return false;
            },
        }
        code = code + 1;
    }
    proof {
        assert(condition_views(a@) =~= condition_views(b@));
    }
    true
}

/// Pending condition damage of a player over an elapsed period, capped by current health.
pub open spec fn pending_damage(m: WorldModel, id: u64, elapsed: u16) -> u16 {
    min_int(pending_damage_from(m.conditions[id], elapsed, 0), m.vitals[id].health as int) as u16
}

impl WorldState {
    pub fn player_conditions(&self, player_id: u64) -> (r: Result<&ConditionMap, CoreError>)
        ensures
            match r {
                Ok(c) => self@.conditions.contains_key(player_id) && condition_views(c@) == self@.conditions[player_id],
                Err(e) => !self@.conditions.contains_key(player_id) && e == CoreError::UnknownPlayer(player_id),
            },
    {
        match self.player_conditions.get(&player_id) {
            Some(c) => Ok(c),
            None => Err(CoreError::UnknownPlayer(player_id)),
        }
    }

    /// Replaces the whole condition set of a known player; an identical set changes nothing.
    pub fn replace_player_conditions(&mut self, player_id: u64, conditions: ConditionMap) -> (r: Result<bool, CoreError>)
        ensures
            !(old(self)@.players.contains_key(player_id) && old(self)@.conditions.contains_key(player_id))
                ==> r == Err::<bool, CoreError>(CoreError::UnknownPlayer(player_id)) && final(self)@ == old(self)@,
            old(self)@.players.contains_key(player_id) && old(self)@.conditions.contains_key(player_id) ==> {
                let same = old(self)@.conditions[player_id] == condition_views(conditions@);
                &&& r == Ok::<bool, CoreError>(!same)
                &&& same ==> final(self)@ == old(self)@
                &&& !same ==> final(self)@ == (WorldModel {
                    conditions: old(self)@.conditions.insert(player_id, condition_views(conditions@)),
                    revision: bumped(old(self)@.revision),
                    ..old(self)@
                })
            },
    {
        if !self.players.contains_key(&player_id) {
            return Err(CoreError::UnknownPlayer(player_id));
        }
        let current = self.player_conditions(player_id)?;
        if same_conditions(current, &conditions) {
            return Ok(false);
        }
        let ghost m = self@;
        self.player_conditions.insert(player_id, conditions);
        proof { assert(self@.conditions =~= m.conditions.insert(player_id, condition_views(conditions@))); }
        self.mark_changed();
        Ok(true)
    }

    /// Applies or replaces one condition kind; an identical condition changes nothing.
    pub fn apply_player_condition(&mut self, player_id: u64, condition: PlayerCondition) -> (r: Result<bool, CoreError>)
        ensures
            !old(self)@.conditions.contains_key(player_id) ==> r == Err::<bool, CoreError>(CoreError::UnknownPlayer(player_id))
                && final(self)@ == old(self)@,
            old(self)@.conditions.contains_key(player_id) ==> {
                let cs = old(self)@.conditions[player_id];
                let k = condition_kind_code(condition@.kind);
                let same = cs.contains_key(k) && cs[k] == condition@;
                &&& r == Ok::<bool, CoreError>(!same)
                &&& same ==> final(self)@ == old(self)@
                &&& !same ==> final(self)@ == (WorldModel {
                    conditions: old(self)@.conditions.insert(player_id, cs.insert(k, condition@)),
                    revision: bumped(old(self)@.revision),
                    ..old(self)@
                })
            },
    {
        let mut conditions = match self.player_conditions.remove(&player_id) {
            Some(c) => c,
            None => { return Err(CoreError::UnknownPlayer(player_id)); },
        };
        let ghost m = old(self)@;
        let k = condition.kind_of().code();
        let same = match conditions.get(&k) {
            Some(existing) => *existing == condition,
            None => false,
        };
        if same {
            self.player_conditions.insert(player_id, conditions);
            proof {
                assert(self.player_conditions@ =~= old(self).player_conditions@);
            }
            return Ok(false);
        }
        proof {
            if conditions@.contains_key(k) && conditions@[k]@ == condition@ {
                conditions@[k].lemma_view_determines(condition);
            }
        }
        let ghost before = condition_views(conditions@);
        conditions.insert(k, condition);
        proof { assert(condition_views(conditions@) =~= before.insert(k, condition@)); }
        self.player_conditions.insert(player_id, conditions);
        proof { assert(self@.conditions =~= m.conditions.insert(player_id, before.insert(k, condition@))); }
        self.mark_changed();
        Ok(true)
    }

    /// Pending damage of a player's conditions over an elapsed period, capped by current health.
    pub(crate) fn pending_player_condition_damage(&self, player_id: u64, elapsed_seconds: u16) -> (r: Result<u16, CoreError>)
        requires
            self@.conditions.contains_key(player_id) ==> conditions_schedulable(self@.conditions[player_id]),
        ensures
            !self@.vitals.contains_key(player_id) || !self@.conditions.contains_key(player_id)
                ==> r == Err::<u16, CoreError>(CoreError::UnknownPlayer(player_id)),
            self@.vitals.contains_key(player_id) && self@.conditions.contains_key(player_id)
                ==> r == Ok::<u16, CoreError>(pending_damage(self@, player_id, elapsed_seconds)),
    {
        let health = self.player_vitals(player_id)?.health;
        let conditions = self.player_conditions(player_id)?;
        let total = pending_condition_damage(conditions, elapsed_seconds);
        Ok(if total < health as u32 { total as u16 } else { health })
    }

    /// Advances the condition schedules of a living player by a bounded period (at most a minute):
    /// damage is capped by current health and conditions that run out are dropped.
    pub fn apply_player_conditions(&mut self, player_id: u64, elapsed_seconds: u16) -> (r: Result<PlayerConditionOutcome, CoreError>)
        requires
            old(self)@.conditions.contains_key(player_id) ==> conditions_schedulable(old(self)@.conditions[player_id]),
        ensures
            apply_conditions_ensures(old(self)@, final(self)@, player_id, elapsed_seconds, r),
    {
        let current = self.player_vitals(player_id)?;
        let dead = self.player_respawn_state(player_id)?.dead;
        if dead {
            return Ok(PlayerConditionOutcome { player_id, applied_damage: 0, remaining_health: current.health,
                expired_conditions: 0 });
        }
        let e = if elapsed_seconds > MAX_REGENERATION_ELAPSED_SECONDS { MAX_REGENERATION_ELAPSED_SECONDS } else { elapsed_seconds };
        let requested = self.pending_player_condition_damage(player_id, e)?;
        let mut conditions = match self.player_conditions.remove(&player_id) {
            Some(c) => c,
            None => { return Err(CoreError::UnknownPlayer(player_id)); },
        };
        proof {
            crate::conditions::lemma_pending_bounded(condition_views(conditions@), e, 0);
            if condition_views(conditions@) == Map::<u8, ConditionView>::empty() {
                assert(conditions@.dom() =~= condition_views(conditions@).dom());
                assert(conditions@ =~= Map::<u8, PlayerCondition>::empty());
            }
            if conditions@.is_empty() {
                assert(condition_views(conditions@) =~= Map::<u8, ConditionView>::empty());
            }
        }
        if e == 0 || conditions.is_empty() {
            self.player_conditions.insert(player_id, conditions);
            proof { assert(self.player_conditions@ =~= old(self).player_conditions@); }
            return Ok(PlayerConditionOutcome { player_id, applied_damage: 0, remaining_health: current.health,
                expired_conditions: 0 });
        }
        let ghost m = old(self)@;
        let expired = advance_conditions(&mut conditions, e);
        self.player_conditions.insert(player_id, conditions);
        proof {
            assert(self@.conditions =~= m.conditions.insert(player_id, conditions_after(m.conditions[player_id], e)));
        }
        let remaining = current.health - requested;
        if requested > 0 {
            self.player_vitals.insert(player_id, PlayerVitals { health: remaining, ..current });
        }
        if requested > 0 || expired > 0 {
            self.mark_changed();
        }
        let count: u8 = if expired > 255 { 255 } else { expired as u8 };
        Ok(PlayerConditionOutcome { player_id, applied_damage: requested, remaining_health: remaining,
            expired_conditions: count })
    }

    /// A condition tick that enters the death state when it is lethal. The town and its temple
    /// are checked before anything changes when the pending damage would be lethal.
    pub fn apply_player_conditions_with_death(&mut self, player_id: u64, town_id: u32, world_map: &WorldMap,
        elapsed_seconds: u16) -> (r: Result<(PlayerConditionOutcome, Option<PlayerRespawnState>), CoreError>)
        requires
            old(self)@.conditions.contains_key(player_id) ==> conditions_schedulable(old(self)@.conditions[player_id]),
        ensures
            (r, final(self)@) == conditions_death_result(old(self)@, player_id, town_id, world_map@, elapsed_seconds),
            r is Ok && r->Ok_0.1 is Some ==> r->Ok_0.1->0.dead && r->Ok_0.1->0.respawn_at
                == Some(world_map@.towns[town_id].temple_position),
    {
        let vitals = self.player_vitals(player_id)?;
        let dead = self.player_respawn_state(player_id)?.dead;
        if dead {
            return Ok((PlayerConditionOutcome { player_id, applied_damage: 0, remaining_health: vitals.health,
                expired_conditions: 0 }, None));
        }
        let e = if elapsed_seconds > MAX_REGENERATION_ELAPSED_SECONDS { MAX_REGENERATION_ELAPSED_SECONDS } else { elapsed_seconds };
        let pending = self.pending_player_condition_damage(player_id, e)?;
        if pending > 0 && pending >= vitals.health {
            if town_id == 0 {
                return Err(CoreError::PlayerTownUnassigned(player_id));
            }
            if world_map.temple_position_for_town(town_id).is_none() {
                return Err(CoreError::UnknownTown(town_id));
            }
        }
        let outcome = self.apply_player_conditions(player_id, e)?;
        if outcome.applied_damage > 0 && outcome.remaining_health == 0 {
            let state = self.apply_player_death(player_id, town_id, world_map)?;
            return Ok((outcome, Some(state)));
        }
        Ok((outcome, None))
    }

    /// The active haste bonus of a player in percent (zero without haste).
    pub fn player_speed_bonus_percent(&self, player_id: u64) -> (r: u16)
        ensures
            r == (if self@.conditions.contains_key(player_id)
                && self@.conditions[player_id].contains_key(condition_kind_code(PlayerConditionKind::Haste)) {
                self@.conditions[player_id][condition_kind_code(PlayerConditionKind::Haste)].speed_bonus_percent } else { 0 }),
    {
        let k = PlayerConditionKind::Haste.code();
        match self.player_conditions.get(&player_id) {
            Some(cs) => match cs.get(&k) {
                Some(c) => c.speed_bonus_of(),
                None => 0,
            },
            None => 0,
        }
    }

    /// Applies or refreshes the non-stacking haste condition of a known player.
    pub fn apply_player_speed_condition(&mut self, player_id: u64, speed_bonus_percent: u16, remaining_seconds: u16)
        -> (r: Result<bool, CoreError>)
        ensures
            !old(self)@.players.contains_key(player_id) ==> r == Err::<bool, CoreError>(CoreError::UnknownPlayer(player_id)),
            old(self)@.players.contains_key(player_id) && !haste_valid(speed_bonus_percent, remaining_seconds)
                ==> r == Err::<bool, CoreError>(CoreError::InvalidPlayerCondition),
            r is Err ==> final(self)@ == old(self)@,
            old(self)@.players.contains_key(player_id) && haste_valid(speed_bonus_percent, remaining_seconds) ==> {
                let k = condition_kind_code(PlayerConditionKind::Haste);
                let cs = if old(self)@.conditions.contains_key(player_id) { old(self)@.conditions[player_id] }
                    else { Map::<u8, ConditionView>::empty() };
                let haste = ConditionView { kind: PlayerConditionKind::Haste, interval_seconds: 1, damage: 0,
                    speed_bonus_percent, remaining_seconds, elapsed_seconds: 0 };
                &&& r == Ok::<bool, CoreError>(true)
                &&& final(self)@ == (WorldModel {
                    conditions: old(self)@.conditions.insert(player_id, cs.insert(k, haste)),
                    revision: bumped(old(self)@.revision),
                    ..old(self)@
                })
            },
    {
        if !self.players.contains_key(&player_id) {
            return Err(CoreError::UnknownPlayer(player_id));
        }
        let condition = PlayerCondition::new_haste(speed_bonus_percent, remaining_seconds)?;
        let mut cs = match self.player_conditions.remove(&player_id) {
            Some(c) => c,
            None => BTreeMap::new(),
        };
        let k = PlayerConditionKind::Haste.code();
        let ghost before = condition_views(cs@);
        cs.insert(k, condition);
        let ghost m = old(self)@;
        proof {
            assert(condition_views(cs@) =~= before.insert(k, condition@));
            if !m.conditions.contains_key(player_id) {
                assert(before =~= Map::<u8, ConditionView>::empty());
            }
        }
        self.player_conditions.insert(player_id, cs);
        proof {
            let cs0 = if m.conditions.contains_key(player_id) { m.conditions[player_id] } else { Map::<u8, ConditionView>::empty() };
            assert(self@.conditions =~= m.conditions.insert(player_id, cs0.insert(k, condition@)));
        }
        self.mark_changed();
        Ok(true)
    }
}

/// The contract of one condition tick.
pub open spec fn apply_conditions_ensures(m: WorldModel, f: WorldModel, id: u64, elapsed: u16,
    r: Result<PlayerConditionOutcome, CoreError>) -> bool {
    let e = if elapsed > MAX_REGENERATION_ELAPSED_SECONDS { MAX_REGENERATION_ELAPSED_SECONDS } else { elapsed };
    if !m.vitals.contains_key(id) || dead_state(m, id) is Err {
        r == Err::<PlayerConditionOutcome, CoreError>(CoreError::UnknownPlayer(id)) && f == m
    } else if dead_state(m, id) == Ok::<bool, CoreError>(true) {
        r == Ok::<PlayerConditionOutcome, CoreError>(PlayerConditionOutcome { player_id: id, applied_damage: 0,
            remaining_health: m.vitals[id].health, expired_conditions: 0 }) && f == m
    } else if !m.conditions.contains_key(id) {
        r == Err::<PlayerConditionOutcome, CoreError>(CoreError::UnknownPlayer(id)) && f == m
    } else {
        r == Ok::<PlayerConditionOutcome, CoreError>(conditions_tick(m, id, e).0) && f == conditions_tick(m, id, e).1
    }
}

/// One condition tick of a living player with vitals and conditions over `e` seconds: the outcome
/// and the world after it. Damage is capped by current health and conditions that run out are
/// dropped; nothing changes over zero seconds or without conditions.
pub open spec fn conditions_tick(m: WorldModel, id: u64, e: u16) -> (PlayerConditionOutcome, WorldModel) {
    if e == 0 || m.conditions[id] == Map::<u8, ConditionView>::empty() {
        (PlayerConditionOutcome { player_id: id, applied_damage: 0, remaining_health: m.vitals[id].health,
            expired_conditions: 0 }, m)
    } else {
        let v = m.vitals[id];
        let applied = pending_damage(m, id, e);
        let expired = expired_count(m.conditions[id], e);
        (PlayerConditionOutcome { player_id: id, applied_damage: applied, remaining_health: (v.health - applied) as u16,
            expired_conditions: (if expired > 255 { 255 } else { expired }) as u8 },
        WorldModel {
            conditions: m.conditions.insert(id, conditions_after(m.conditions[id], e)),
            vitals: if applied > 0 { m.vitals.insert(id, PlayerVitals { health: (v.health - applied) as u16, ..v }) } else { m.vitals },
            revision: if applied > 0 || expired > 0 { bumped(m.revision) } else { m.revision },
            ..m
        })
    }
}

/// A condition tick that enters the death state when it is lethal: the result and the world
/// after it. Before anything changes, a lethal tick needs an assigned town that the map knows.
pub open spec fn conditions_death_result(m: WorldModel, id: u64, town: u32, map: WorldMapView, elapsed: u16)
    -> (Result<(PlayerConditionOutcome, Option<PlayerRespawnState>), CoreError>, WorldModel)
{
    let e = if elapsed > MAX_REGENERATION_ELAPSED_SECONDS { MAX_REGENERATION_ELAPSED_SECONDS } else { elapsed };
    if !m.vitals.contains_key(id) || dead_state(m, id) is Err {
        (Err(CoreError::UnknownPlayer(id)), m)
    } else if dead_state(m, id) == Ok::<bool, CoreError>(true) {
        (Ok((PlayerConditionOutcome { player_id: id, applied_damage: 0, remaining_health: m.vitals[id].health,
            expired_conditions: 0 }, None)), m)
    } else if !m.conditions.contains_key(id) {
        (Err(CoreError::UnknownPlayer(id)), m)
    } else {
        let pending = pending_damage(m, id, e);
        let lethal = pending > 0 && pending >= m.vitals[id].health;
        if lethal && town == 0 {
            (Err(CoreError::PlayerTownUnassigned(id)), m)
        } else if lethal && !map.towns.contains_key(town) {
            (Err(CoreError::UnknownTown(town)), m)
        } else {
            let t = conditions_tick(m, id, e);
            if t.0.applied_damage > 0 && t.0.remaining_health == 0 {
                let d = death_outcome(t.1, id, town, map);
                match d.0 {
                    Ok(state) => (Ok((t.0, Some(state))), d.1),
                    Err(x) => (Err(x), d.1),
                }
            } else {
                (Ok((t.0, None)), t.1)
            }
        }
    }
}

} // verus!
