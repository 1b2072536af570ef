//! Player damage, typed combat events and spell casts on the authoritative world.

use vstd::prelude::*;
use crate::error::CoreError;
use crate::geometry::{spec_adjacent, chebyshev, abs_diff_u16};
use crate::progression::PlayerVitals;
use crate::combat::{
    PlayerDamageOutcome, PlayerCombatEvent, PlayerCombatEventOutcome, PlayerCombatCooldown, CombatDamageType,
    CombatDelivery, PlayerSpellCastEvent, PlayerSpellCastOutcome, PlayerSpellCooldown, mitigated,
    MAX_SPELL_MANA_COST, MAX_COMBAT_INTERVAL_TICKS,
};
use crate::world::{WorldState, WorldModel, bumped};
use crate::world::lifecycle::dead_state;

verus! {

broadcast use {vstd::std_specs::btree::group_btree_axioms, vstd::laws_cmp::group_laws_cmp};

/// The damage actually applied to a player with `health`.
pub open spec fn applied_damage(health: u16, requested: u16) -> u16 {
    if requested <= health { requested } else { health }
}

/// Damage to a known target: (applied, remaining) and the world after it. God mode absorbs it.
pub open spec fn damage_result(m: WorldModel, target: u64, requested: u16) -> Result<((u16, u16), WorldModel), CoreError> {
    if m.god_mode.contains(target) {
        Ok(((0u16, if m.vitals.contains_key(target) { m.vitals[target].health } else { 0u16 }), m))
    } else if !m.vitals.contains_key(target) {
        Err(CoreError::UnknownPlayer(target))
    } else {
        let v = m.vitals[target];
        let applied = applied_damage(v.health, requested);
        Ok(((applied, (v.health - applied) as u16), WorldModel {
            vitals: m.vitals.insert(target, PlayerVitals { health: (v.health - applied) as u16, ..v }),
            ..m
        }))
    }
}

/// Damage from a living attacker to a known player target: the result and the world afterwards.
pub open spec fn player_damage_result(m: WorldModel, a: u64, t: u64, requested: u16)
    -> (Result<PlayerDamageOutcome, CoreError>, WorldModel)
{
    if a == t {
        (Err(CoreError::SelfInteractionNotAllowed(a)), m)
    } else {
        match dead_state(m, a) {
            Err(_) => (Err(CoreError::UnknownPlayer(a)), m),
            Ok(true) => (Err(CoreError::PlayerIsDead(a)), m),
            Ok(false) => if !m.players.contains_key(t) {
                (Err(CoreError::UnknownPlayer(t)), m)
            } else {
                match damage_result(m, t, requested) {
                    Err(e) => (Err(e), m),
                    Ok(((applied, remaining), m2)) => (
                        Ok(PlayerDamageOutcome { attacker_id: a, target_id: t, requested_damage: requested,
                            applied_damage: applied, remaining_health: remaining, defeated: remaining == 0 }),
                        if applied > 0 { WorldModel { revision: bumped(m2.revision), ..m2 } } else { m2 },
                    ),
                }
            },
        }
    }
}

/// The refusal of a typed combat event, if any.
pub open spec fn combat_event_error(m: WorldModel, event: PlayerCombatEvent) -> Option<CoreError> {
    let a = event.attacker_id;
    let t = event.target_id;
    if a == t {
        Some(CoreError::SelfInteractionNotAllowed(a))
    } else if event.damage_type != CombatDamageType::Physical {
        Some(CoreError::InvalidCombatEvent)
    } else if dead_state(m, a) is Err {
        Some(CoreError::UnknownPlayer(a))
    } else if dead_state(m, a) == Ok::<bool, CoreError>(true) {
        Some(CoreError::PlayerIsDead(a))
    } else if !m.players.contains_key(a) {
        Some(CoreError::UnknownPlayer(a))
    } else if !m.players.contains_key(t) {
        Some(CoreError::UnknownPlayer(t))
    } else if match event.delivery {
        CombatDelivery::AdjacentMelee => !spec_adjacent(m.players[a].position, m.players[t].position),
        CombatDelivery::RangedDistance { max_range } => m.players[a].position.z != m.players[t].position.z
            || chebyshev(m.players[a].position, m.players[t].position) == 0
            || chebyshev(m.players[a].position, m.players[t].position) > max_range,
    } {
        Some(CoreError::CombatOutOfRange { attacker_id: a, target_id: t })
    } else if !m.vitals.contains_key(t) {
        Some(CoreError::UnknownPlayer(t))
    } else if m.vitals[t].health == 0 {
        Some(CoreError::TargetAlreadyDefeated(t))
    } else if m.god_mode.contains(t) || m.invisible.contains(t) {
        Some(CoreError::InvalidCombatEvent)
    } else if !m.combat_cooldowns.contains_key(a) {
        Some(CoreError::UnknownPlayer(a))
    } else if m.tick < m.combat_cooldowns[a].next_attack_tick {
        Some(CoreError::CombatCooldownActive { attacker_id: a, current_tick: m.tick,
            next_attack_tick: m.combat_cooldowns[a].next_attack_tick })
    } else if !m.defenses.contains_key(t) {
        Some(CoreError::UnknownPlayer(t))
    } else {
        None
    }
}

pub open spec fn tick_after(tick: u64, interval: u16) -> u64 {
    if tick + interval > u64::MAX { u64::MAX } else { (tick + interval) as u64 }
}

/// The refusal of a spell cast, if any.
pub open spec fn spell_cast_error(m: WorldModel, event: PlayerSpellCastEvent) -> Option<CoreError> {
    let c = event.caster_id;
    if event.spell_id == 0 || event.mana_cost == 0 || event.mana_cost > MAX_SPELL_MANA_COST
        || event.timing.interval_ticks == 0 || event.timing.interval_ticks > MAX_COMBAT_INTERVAL_TICKS {
        Some(CoreError::InvalidSpellCastEvent)
    } else if dead_state(m, c) is Err {
        Some(CoreError::UnknownPlayer(c))
    } else if dead_state(m, c) == Ok::<bool, CoreError>(true) {
        Some(CoreError::PlayerIsDead(c))
    } else if !m.spell_cooldowns.contains_key(c) {
        Some(CoreError::UnknownPlayer(c))
    } else if m.tick < m.spell_cooldowns[c].next_cast_tick {
        Some(CoreError::SpellCooldownActive { caster_id: c, current_tick: m.tick,
            next_cast_tick: m.spell_cooldowns[c].next_cast_tick })
    } else if !m.vitals.contains_key(c) {
        Some(CoreError::UnknownPlayer(c))
    } else if m.vitals[c].mana < event.mana_cost {
        Some(CoreError::InsufficientMana { player_id: c, required_mana: event.mana_cost, available_mana: m.vitals[c].mana })
    } else {
        None
    }
}

impl WorldState {
    /// Subtracts damage from a known target's health, never below zero; god mode absorbs it.
    pub fn apply_damage_to_known_target(&mut self, target_id: u64, requested_damage: u16) -> (r: Result<(u16, u16), CoreError>)
        ensures
            match damage_result(old(self)@, target_id, requested_damage) {
                Err(e) => r == Err::<(u16, u16), CoreError>(e) && final(self)@ == old(self)@,
                Ok((pair, m)) => r == Ok::<(u16, u16), CoreError>(pair) && final(self)@ == m,
            },
    {
        if self.player_god_mode.contains(&target_id) {
            let health = match self.player_vitals.get(&target_id) {
                Some(v) => v.health,
                None => 0,
            };
            return Ok((0, health));
        }
        let mut vitals = match self.player_vitals.get(&target_id) {
            Some(v) => *v,
            None => { return Err(CoreError::UnknownPlayer(target_id)); },
        };
        let applied = if requested_damage <= vitals.health { requested_damage } else { vitals.health };
        vitals.health = vitals.health - applied;
        self.player_vitals.insert(target_id, vitals);
        Ok((applied, vitals.health))
    }

    /// Applies damage from a living attacker to a known target.
    pub fn apply_player_damage(&mut self, attacker_id: u64, target_id: u64, requested_damage: u16)
        -> (r: Result<PlayerDamageOutcome, CoreError>)
        ensures
            attacker_id == target_id ==> r == Err::<PlayerDamageOutcome, CoreError>(CoreError::SelfInteractionNotAllowed(attacker_id)),
            attacker_id != target_id && dead_state(old(self)@, attacker_id) is Err
                ==> r == Err::<PlayerDamageOutcome, CoreError>(CoreError::UnknownPlayer(attacker_id)),
            attacker_id != target_id && dead_state(old(self)@, attacker_id) == Ok::<bool, CoreError>(true)
                ==> r == Err::<PlayerDamageOutcome, CoreError>(CoreError::PlayerIsDead(attacker_id)),
            attacker_id != target_id && dead_state(old(self)@, attacker_id) == Ok::<bool, CoreError>(false)
                && !old(self)@.players.contains_key(target_id)
                ==> r == Err::<PlayerDamageOutcome, CoreError>(CoreError::UnknownPlayer(target_id)),
            r is Err ==> final(self)@ == old(self)@,
            attacker_id != target_id && dead_state(old(self)@, attacker_id) == Ok::<bool, CoreError>(false)
                && old(self)@.players.contains_key(target_id) ==> match damage_result(old(self)@, target_id, requested_damage) {
                    Err(e) => r == Err::<PlayerDamageOutcome, CoreError>(e),
                    Ok(((applied, remaining), m)) => {
                        &&& r == Ok::<PlayerDamageOutcome, CoreError>(PlayerDamageOutcome { attacker_id, target_id,
                            requested_damage, applied_damage: applied, remaining_health: remaining, defeated: remaining == 0 })
                        &&& final(self)@ == (if applied > 0 { WorldModel { revision: bumped(m.revision), ..m } } else { m })
                    },
                },
            (r, final(self)@) == player_damage_result(old(self)@, attacker_id, target_id, requested_damage),
    {
        if attacker_id == target_id {
            return Err(CoreError::SelfInteractionNotAllowed(attacker_id));
        }
        let dead = self.player_respawn_state(attacker_id)?.dead;
        if dead {
            return Err(CoreError::PlayerIsDead(attacker_id));
        }
        if !self.players.contains_key(&target_id) {
            return Err(CoreError::UnknownPlayer(target_id));
        }
        let (applied_damage, remaining_health) = self.apply_damage_to_known_target(target_id, requested_damage)?;
        if applied_damage > 0 {
            self.mark_changed();
        }
        Ok(PlayerDamageOutcome {
            attacker_id,
            target_id,
            requested_damage,
            applied_damage,
            remaining_health,
            defeated: remaining_health == 0,
        })
    }

    /// Applies damage from an attacker standing next to its target.
    pub fn apply_player_melee_damage(&mut self, attacker_id: u64, target_id: u64, requested_damage: u16)
        -> (r: Result<PlayerDamageOutcome, CoreError>)
        ensures
            ({
                let m = old(self)@;
                if !m.players.contains_key(attacker_id) {
                    r == Err::<PlayerDamageOutcome, CoreError>(CoreError::UnknownPlayer(attacker_id)) && final(self)@ == m
                } else if !m.players.contains_key(target_id) {
                    r == Err::<PlayerDamageOutcome, CoreError>(CoreError::UnknownPlayer(target_id)) && final(self)@ == m
                } else if !spec_adjacent(m.players[attacker_id].position, m.players[target_id].position) {
                    r == Err::<PlayerDamageOutcome, CoreError>(CoreError::CombatOutOfRange { attacker_id, target_id })
                        && final(self)@ == m
                } else {
                    (r, final(self)@) == player_damage_result(m, attacker_id, target_id, requested_damage)
                }
            }),
    {
        let from = match self.players.get(&attacker_id) {
            Some(p) => p.position,
            None => { return Err(CoreError::UnknownPlayer(attacker_id)); },
        };
        let to = match self.players.get(&target_id) {
            Some(p) => p.position,
            None => { return Err(CoreError::UnknownPlayer(target_id)); },
        };
        if !from.is_adjacent_to(to) {
            return Err(CoreError::CombatOutOfRange { attacker_id, target_id });
        }
        self.apply_player_damage(attacker_id, target_id, requested_damage)
    }

    /// Resolves one typed physical combat event at the current tick: range, target state, god
    /// mode and invisibility, the attacker's cooldown, then flat mitigation and damage. An accepted
    /// event starts a new cooldown.
    pub fn apply_player_combat_event(&mut self, event: PlayerCombatEvent) -> (r: Result<PlayerCombatEventOutcome, CoreError>)
        ensures
            match combat_event_error(old(self)@, event) {
                Some(e) => r == Err::<PlayerCombatEventOutcome, CoreError>(e) && final(self)@ == old(self)@,
                None => {
                    let t = event.target_id;
                    let v = old(self)@.vitals[t];
                    let reduced = mitigated(old(self)@.defenses[t], event.requested_damage);
                    let applied = applied_damage(v.health, reduced);
                    let remaining = (v.health - applied) as u16;
                    let next = tick_after(old(self)@.tick, event.timing.interval_ticks);
                    &&& r == Ok::<PlayerCombatEventOutcome, CoreError>(PlayerCombatEventOutcome {
                        damage: PlayerDamageOutcome { attacker_id: event.attacker_id, target_id: t,
                            requested_damage: event.requested_damage, applied_damage: applied,
                            remaining_health: remaining, defeated: remaining == 0 },
                        damage_type: event.damage_type,
                        mitigated_damage: reduced,
                        next_attack_tick: next,
                    })
                    &&& final(self)@ == (WorldModel {
                        vitals: old(self)@.vitals.insert(t, PlayerVitals { health: remaining, ..v }),
                        combat_cooldowns: old(self)@.combat_cooldowns.insert(event.attacker_id,
                            PlayerCombatCooldown { next_attack_tick: next }),
                        revision: bumped(old(self)@.revision),
                        ..old(self)@
                    })
                },
            },
    {
        let a = event.attacker_id;
        let t = event.target_id;
        if a == t {
            return Err(CoreError::SelfInteractionNotAllowed(a));
        }
        if event.damage_type != CombatDamageType::Physical {
            return Err(CoreError::InvalidCombatEvent);
        }
        let dead = self.player_respawn_state(a)?.dead;
        if dead {
            return Err(CoreError::PlayerIsDead(a));
        }
        let from = match self.players.get(&a) {
            Some(p) => p.position,
            None => { return Err(CoreError::UnknownPlayer(a)); },
        };
        let to = match self.players.get(&t) {
            Some(p) => p.position,
            None => { return Err(CoreError::UnknownPlayer(t)); },
        };
        match event.delivery {
            CombatDelivery::AdjacentMelee => {
                if !from.is_adjacent_to(to) {
                    return Err(CoreError::CombatOutOfRange { attacker_id: a, target_id: t });
                }
            },
            CombatDelivery::RangedDistance { max_range } => {
                if from.z != to.z {
                    return Err(CoreError::CombatOutOfRange { attacker_id: a, target_id: t });
                }
                let dx = abs_diff_u16(from.x, to.x);
                let dy = abs_diff_u16(from.y, to.y);
                let distance = if dx >= dy { dx } else { dy };
                if distance == 0 || distance > max_range as u16 {
                    return Err(CoreError::CombatOutOfRange { attacker_id: a, target_id: t });
                }
            },
        }
        let target_health = self.player_vitals(t)?.health;
        if target_health == 0 {
            return Err(CoreError::TargetAlreadyDefeated(t));
        }
        if self.player_god_mode.contains(&t) || self.player_invisible.contains(&t) {
            return Err(CoreError::InvalidCombatEvent);
        }
        let cooldown = self.player_combat_cooldown(a)?;
        if self.tick < cooldown.next_attack_tick {
            return Err(CoreError::CombatCooldownActive { attacker_id: a, current_tick: self.tick,
                next_attack_tick: cooldown.next_attack_tick });
        }
        let defense = self.player_combat_defense(t)?;
        let mitigated_damage = defense.mitigate_physical(event.requested_damage);
        let (applied_damage, remaining_health) = self.apply_damage_to_known_target(t, mitigated_damage)?;
        let next_attack_tick = self.tick.saturating_add(event.timing.interval_ticks as u64);
        self.player_combat_cooldowns.insert(a, PlayerCombatCooldown { next_attack_tick });
        self.mark_changed();
        Ok(PlayerCombatEventOutcome {
            damage: PlayerDamageOutcome {
                attacker_id: a,
                target_id: t,
                requested_damage: event.requested_damage,
                applied_damage,
                remaining_health,
                defeated: remaining_health == 0,
            },
            damage_type: event.damage_type,
            mitigated_damage,
            next_attack_tick,
        })
    }

    /// Debits the mana of a living caster and starts its spell cooldown.
    pub fn apply_player_spell_cast_event(&mut self, event: PlayerSpellCastEvent) -> (r: Result<PlayerSpellCastOutcome, CoreError>)
        ensures
            match spell_cast_error(old(self)@, event) {
                Some(e) => r == Err::<PlayerSpellCastOutcome, CoreError>(e) && final(self)@ == old(self)@,
                None => {
                    let c = event.caster_id;
                    let v = old(self)@.vitals[c];
                    let next = tick_after(old(self)@.tick, event.timing.interval_ticks);
                    &&& r == Ok::<PlayerSpellCastOutcome, CoreError>(PlayerSpellCastOutcome { caster_id: c,
                        spell_id: event.spell_id, mana_spent: event.mana_cost,
                        remaining_mana: (v.mana - event.mana_cost) as u16, next_cast_tick: next })
                    &&& final(self)@ == (WorldModel {
                        vitals: old(self)@.vitals.insert(c, PlayerVitals { mana: (v.mana - event.mana_cost) as u16, ..v }),
                        spell_cooldowns: old(self)@.spell_cooldowns.insert(c, PlayerSpellCooldown { next_cast_tick: next }),
                        revision: bumped(old(self)@.revision),
                        ..old(self)@
                    })
                },
            },
    {
        if event.spell_id == 0 || event.mana_cost == 0 || event.mana_cost > MAX_SPELL_MANA_COST
            || event.timing.interval_ticks == 0 || event.timing.interval_ticks > MAX_COMBAT_INTERVAL_TICKS {
            return Err(CoreError::InvalidSpellCastEvent);
        }
        let c = event.caster_id;
        let dead = self.player_respawn_state(c)?.dead;
        if dead {
            return Err(CoreError::PlayerIsDead(c));
        }
        let cooldown = self.player_spell_cooldown(c)?;
        if self.tick < cooldown.next_cast_tick {
            return Err(CoreError::SpellCooldownActive { caster_id: c, current_tick: self.tick,
                next_cast_tick: cooldown.next_cast_tick });
        }
        let mut vitals = match self.player_vitals.get(&c) {
            Some(v) => *v,
            None => { return Err(CoreError::UnknownPlayer(c)); },
        };
        if vitals.mana < event.mana_cost {
            return Err(CoreError::InsufficientMana { player_id: c, required_mana: event.mana_cost,
                available_mana: vitals.mana });
        }
        vitals.mana = vitals.mana - event.mana_cost;
        self.player_vitals.insert(c, vitals);
        let next_cast_tick = self.tick.saturating_add(event.timing.interval_ticks as u64);
        self.player_spell_cooldowns.insert(c, PlayerSpellCooldown { next_cast_tick });
        self.mark_changed();
        Ok(PlayerSpellCastOutcome {
            caster_id: c,
            spell_id: event.spell_id,
            mana_spent: event.mana_cost,
            remaining_mana: vitals.mana,
            next_cast_tick,
        })
    }
}


/// Between two distinct registered players on one floor, with a living attacker and a physical
/// event, the event is refused as out of range exactly when the Chebyshev tile distance does not
/// fit its delivery: a melee blow needs distance one, and a distance shot needs a distance of at
/// least one and at most its declared range.
pub proof fn law_combat_range_is_chebyshev(m: WorldModel, event: PlayerCombatEvent)
    requires
        event.attacker_id != event.target_id,
        event.damage_type == CombatDamageType::Physical,
        dead_state(m, event.attacker_id) == Ok::<bool, CoreError>(false),
        m.players.contains_key(event.attacker_id),
        m.players.contains_key(event.target_id),
        m.players[event.attacker_id].position.z == m.players[event.target_id].position.z,
    ensures
        ({
            let d = chebyshev(m.players[event.attacker_id].position, m.players[event.target_id].position);
            (combat_event_error(m, event) == Some(CoreError::CombatOutOfRange { attacker_id: event.attacker_id,
                target_id: event.target_id })) <==> match event.delivery {
                CombatDelivery::AdjacentMelee => d != 1,
                CombatDelivery::RangedDistance { max_range } => d == 0 || d > max_range,
            }
        }),
{
}


/// Mitigation takes the flat reduction off the request and never goes below zero, and the
/// applied damage is the mitigated damage capped by the target's health.
pub proof fn law_damage_is_mitigated_then_capped(defense: crate::combat::PlayerCombatDefense, requested: u16, health: u16)
    ensures
        mitigated(defense, requested) as int == if requested >= defense.physical_flat_reduction {
            requested - defense.physical_flat_reduction } else { 0 },
        applied_damage(health, mitigated(defense, requested)) <= health,
        applied_damage(health, mitigated(defense, requested)) <= mitigated(defense, requested),
        applied_damage(health, mitigated(defense, requested)) == health
            || applied_damage(health, mitigated(defense, requested)) == mitigated(defense, requested),
{
}

} // verus!
