//! Damage-over-time conditions and the timed speed modifier, with their bounded tick arithmetic.

use vstd::prelude::*;
use std::collections::BTreeMap;
use crate::error::CoreError;
use crate::progression::{sat_add, min_int};

verus! {

broadcast use {vstd::std_specs::btree::group_btree_axioms, vstd::laws_cmp::group_laws_cmp};

pub const MAX_CONDITION_DURATION_SECONDS: u16 = 3600;
/// Bounded cap for the haste speed modifier.
pub const MAX_SPEED_BONUS_PERCENT: u16 = 100;

/// Damage-over-time condition families plus the timed speed modifier (haste).
#[derive(Debug, Clone, Copy, PartialEq, Eq, PartialOrd, Ord, Structural)]
pub enum PlayerConditionKind {
    Poison,
    Burning,
    Energy,
    Haste,
}

pub open spec fn condition_kind_code(kind: PlayerConditionKind) -> u8 {
    match kind {
        PlayerConditionKind::Poison => 0,
        PlayerConditionKind::Burning => 1,
        PlayerConditionKind::Energy => 2,
        PlayerConditionKind::Haste => 3,
    }
}

pub open spec fn condition_kind_from_code(code: u8) -> Option<PlayerConditionKind> {
    if code == 0 { Some(PlayerConditionKind::Poison) }
    else if code == 1 { Some(PlayerConditionKind::Burning) }
    else if code == 2 { Some(PlayerConditionKind::Energy) }
    else if code == 3 { Some(PlayerConditionKind::Haste) }
    else { None }
}

impl PlayerConditionKind {
    pub fn code(self) -> (r: u8)
        ensures
            r == condition_kind_code(self),
    {
        match self {
            PlayerConditionKind::Poison => 0,
            PlayerConditionKind::Burning => 1,
            PlayerConditionKind::Energy => 2,
            PlayerConditionKind::Haste => 3,
        }
    }

    pub fn from_code(code: u8) -> (r: Option<PlayerConditionKind>)
        ensures
            r == condition_kind_from_code(code),
    {
        match code {
            0 => Some(PlayerConditionKind::Poison),
            1 => Some(PlayerConditionKind::Burning),
            2 => Some(PlayerConditionKind::Energy),
            3 => Some(PlayerConditionKind::Haste),
            _ => None,
        }
    }

    /// Haste is the one kind that deals no damage.
    pub fn is_damage_over_time(self) -> (r: bool)
        ensures
            r == (self != PlayerConditionKind::Haste),
    {
        !matches!(self, PlayerConditionKind::Haste)
    }
}

/// The model of one condition schedule.
pub struct ConditionView {
    pub kind: PlayerConditionKind,
    pub interval_seconds: u16,
    pub damage: u16,
    pub speed_bonus_percent: u16,
    pub remaining_seconds: u16,
    pub elapsed_seconds: u16,
}

/// A single validated condition schedule, stored by kind.
#[derive(Debug, Clone, Copy, PartialEq, Eq, Structural)]
pub struct PlayerCondition {
    pub kind: PlayerConditionKind,
    pub interval_seconds: u16,
    pub damage: u16,
    /// Haste modifier: additive percent applied to walk speed; zero for damage kinds.
    pub speed_bonus_percent: u16,
    pub remaining_seconds: u16,
    elapsed_seconds: u16,
}

impl View for PlayerCondition {
    type V = ConditionView;

    closed spec fn view(&self) -> ConditionView {
        ConditionView {
            kind: self.kind,
            interval_seconds: self.interval_seconds,
            damage: self.damage,
            speed_bonus_percent: self.speed_bonus_percent,
            remaining_seconds: self.remaining_seconds,
            elapsed_seconds: self.elapsed_seconds,
        }
    }
}

/// Validity of a damage-over-time schedule.
pub open spec fn dot_valid(kind: PlayerConditionKind, interval_seconds: u16, damage: u16, remaining_seconds: u16) -> bool {
    kind != PlayerConditionKind::Haste && interval_seconds > 0 && damage > 0 && 0 < remaining_seconds <= MAX_CONDITION_DURATION_SECONDS
}

/// Validity of a haste schedule.
pub open spec fn haste_valid(speed_bonus_percent: u16, remaining_seconds: u16) -> bool {
    0 < speed_bonus_percent <= MAX_SPEED_BONUS_PERCENT && 0 < remaining_seconds <= MAX_CONDITION_DURATION_SECONDS
}

impl PlayerCondition {
    /// Damage-over-time constructor; haste requires `new_haste`.
    pub fn new(kind: PlayerConditionKind, interval_seconds: u16, damage: u16, remaining_seconds: u16)
        -> (r: Result<PlayerCondition, CoreError>)
        ensures
            !dot_valid(kind, interval_seconds, damage, remaining_seconds) ==> r == Err::<PlayerCondition, CoreError>(CoreError::InvalidPlayerCondition),
            dot_valid(kind, interval_seconds, damage, remaining_seconds) ==> r is Ok && r->Ok_0@ == (ConditionView {
                kind, interval_seconds, damage, speed_bonus_percent: 0, remaining_seconds, elapsed_seconds: 0 }),
    {
        if kind.is_damage_over_time() {
            if interval_seconds == 0 || damage == 0 || remaining_seconds == 0 {
                return Err(CoreError::InvalidPlayerCondition);
            }
        } else {
            return Err(CoreError::InvalidPlayerCondition);
        }
        if remaining_seconds > MAX_CONDITION_DURATION_SECONDS {
            return Err(CoreError::InvalidPlayerCondition);
        }
        Ok(PlayerCondition { kind, interval_seconds, damage, speed_bonus_percent: 0, remaining_seconds, elapsed_seconds: 0 })
    }

    /// Timed speed modifier: no damage and a one-second interval.
    pub fn new_haste(speed_bonus_percent: u16, remaining_seconds: u16) -> (r: Result<PlayerCondition, CoreError>)
        ensures
            !haste_valid(speed_bonus_percent, remaining_seconds) ==> r == Err::<PlayerCondition, CoreError>(CoreError::InvalidPlayerCondition),
            haste_valid(speed_bonus_percent, remaining_seconds) ==> r is Ok && r->Ok_0@ == (ConditionView {
                kind: PlayerConditionKind::Haste, interval_seconds: 1, damage: 0, speed_bonus_percent, remaining_seconds, elapsed_seconds: 0 }),
    {
        if speed_bonus_percent == 0 || speed_bonus_percent > MAX_SPEED_BONUS_PERCENT {
            return Err(CoreError::InvalidPlayerCondition);
        }
        if remaining_seconds == 0 || remaining_seconds > MAX_CONDITION_DURATION_SECONDS {
            return Err(CoreError::InvalidPlayerCondition);
        }
        Ok(PlayerCondition { kind: PlayerConditionKind::Haste, interval_seconds: 1, damage: 0, speed_bonus_percent, remaining_seconds, elapsed_seconds: 0 })
    }

    /// Restores a persisted schedule; the persisted progress must be below the given interval.
    pub fn from_persisted(kind: PlayerConditionKind, interval_seconds: u16, damage: u16, speed_bonus_percent: u16,
        remaining_seconds: u16, elapsed_seconds: u16) -> (r: Result<PlayerCondition, CoreError>)
        ensures
            ({
                let base_ok = if kind != PlayerConditionKind::Haste {
                    speed_bonus_percent == 0 && dot_valid(kind, interval_seconds, damage, remaining_seconds)
                } else {
                    interval_seconds != 0 && damage == 0 && haste_valid(speed_bonus_percent, remaining_seconds)
                };
                &&& (!base_ok || elapsed_seconds >= interval_seconds) ==> r == Err::<PlayerCondition, CoreError>(CoreError::InvalidPlayerCondition)
                &&& (base_ok && elapsed_seconds < interval_seconds) ==> r is Ok && r->Ok_0@ == (if kind != PlayerConditionKind::Haste {
                        ConditionView { kind, interval_seconds, damage, speed_bonus_percent: 0, remaining_seconds, elapsed_seconds }
                    } else {
                        ConditionView { kind, interval_seconds: 1, damage: 0, speed_bonus_percent, remaining_seconds, elapsed_seconds }
                    })
            }),
    {
        let mut condition = if kind.is_damage_over_time() {
            if speed_bonus_percent != 0 {
                return Err(CoreError::InvalidPlayerCondition);
            }
            PlayerCondition::new(kind, interval_seconds, damage, remaining_seconds)?
        } else {
            if interval_seconds == 0 || damage != 0 || speed_bonus_percent == 0 {
                return Err(CoreError::InvalidPlayerCondition);
            }
            PlayerCondition::new_haste(speed_bonus_percent, remaining_seconds)?
        };
        if elapsed_seconds >= interval_seconds {
            return Err(CoreError::InvalidPlayerCondition);
        }
        condition.elapsed_seconds = elapsed_seconds;
        Ok(condition)
    }

    pub fn elapsed_seconds(self) -> (r: u16)
        ensures
            r == self@.elapsed_seconds,
    {
        self.elapsed_seconds
    }

    pub fn kind_of(self) -> (r: PlayerConditionKind)
        ensures
            r == self@.kind,
    {
        self.kind
    }

    pub fn speed_bonus_of(self) -> (r: u16)
        ensures
            r == self@.speed_bonus_percent,
    {
        self.speed_bonus_percent
    }

    pub proof fn lemma_view_determines(self, other: PlayerCondition)
        ensures
            self@ == other@ ==> self == other,
    {
    }
}

#[derive(Debug, Clone, Copy, PartialEq, Eq, Structural)]
pub struct PlayerConditionOutcome {
    pub player_id: u64,
    pub applied_damage: u16,
    pub remaining_health: u16,
    pub expired_conditions: u8,
}

/// Conditions of one player keyed by kind code.
pub type ConditionMap = BTreeMap<u8, PlayerCondition>;

/// Seconds of the elapsed period during which a condition is still running.
pub open spec fn active_seconds(c: ConditionView, elapsed: u16) -> u16 {
    if elapsed <= c.remaining_seconds { elapsed } else { c.remaining_seconds }
}

/// Damage events a damage condition produces during the elapsed period.
pub open spec fn condition_events(c: ConditionView, elapsed: u16) -> int {
    if c.interval_seconds == 0 { 0 } else { sat_add(c.elapsed_seconds as int, active_seconds(c, elapsed) as int, u16::MAX as int) / (c.interval_seconds as int) }
}

/// Damage one condition produces during the elapsed period (none for haste).
pub open spec fn condition_damage(c: ConditionView, elapsed: u16) -> int {
    if c.kind == PlayerConditionKind::Haste { 0 } else { condition_events(c, elapsed) * c.damage }
}

/// Saturating `u32` sum of the damage of the conditions with keys in `[code, 256)`.
pub open spec fn pending_damage_from(m: Map<u8, ConditionView>, elapsed: u16, code: int) -> int
    decreases 256 - code,
{
    if code >= 256 || code < 0 {
        0
    } else {
        let here = if m.contains_key(code as u8) { condition_damage(m[code as u8], elapsed) } else { 0 };
        sat_add(here, pending_damage_from(m, elapsed, code + 1), u32::MAX as int)
    }
}

/// The condition after the elapsed period: progress and remaining time advance.
pub open spec fn condition_advanced(c: ConditionView, elapsed: u16) -> ConditionView {
    let active = active_seconds(c, elapsed);
    ConditionView {
        elapsed_seconds: (sat_add(c.elapsed_seconds as int, active as int, u16::MAX as int) % (c.interval_seconds as int)) as u16,
        remaining_seconds: (c.remaining_seconds - active) as u16,
        ..c
    }
}

/// Every stored schedule has a positive interval.
pub open spec fn conditions_schedulable(m: Map<u8, ConditionView>) -> bool {
    forall|k: u8| #[trigger] m.contains_key(k) ==> m[k].interval_seconds > 0
}

/// Views of a stored condition map.
pub open spec fn condition_views(m: Map<u8, PlayerCondition>) -> Map<u8, ConditionView> {
    m.map_values(|c: PlayerCondition| c@)
}

/// The conditions still running after the elapsed period.
pub open spec fn conditions_after(m: Map<u8, ConditionView>, elapsed: u16) -> Map<u8, ConditionView> {
    Map::new(
        |k: u8| m.contains_key(k) && condition_advanced(m[k], elapsed).remaining_seconds > 0,
        |k: u8| condition_advanced(m[k], elapsed),
    )
}

/// The number of conditions with keys in `[code, 256)` that run out during the elapsed period.
pub open spec fn expired_from(m: Map<u8, ConditionView>, elapsed: u16, code: int) -> int
    decreases 256 - code,
{
    if code >= 256 || code < 0 {
        0
    } else {
        (if m.contains_key(code as u8) && condition_advanced(m[code as u8], elapsed).remaining_seconds == 0 { 1int } else { 0int })
            + expired_from(m, elapsed, code + 1)
    }
}

/// The number of conditions that run out during the elapsed period.
pub open spec fn expired_count(m: Map<u8, ConditionView>, elapsed: u16) -> int {
    expired_from(m, elapsed, 0)
}

proof fn lemma_expired_bounded(m: Map<u8, ConditionView>, elapsed: u16, code: int)
    requires
        0 <= code <= 256,
    ensures
        0 <= expired_from(m, elapsed, code) <= 256 - code,
    decreases 256 - code,
{
    if code < 256 {
        lemma_expired_bounded(m, elapsed, code + 1);
    }
}

/// Pending condition damage is a `u32` quantity.
pub proof fn lemma_pending_bounded(m: Map<u8, ConditionView>, elapsed: u16, code: int)
    ensures
        0 <= pending_damage_from(m, elapsed, code) <= u32::MAX,
    decreases 256 - code,
{
    if 0 <= code < 256 {
        lemma_pending_bounded(m, elapsed, code + 1);
        if m.contains_key(code as u8) {
            let c = m[code as u8];
            assert(condition_events(c, elapsed) >= 0);
            assert(condition_events(c, elapsed) * c.damage >= 0) by (nonlinear_arith)
                requires condition_events(c, elapsed) >= 0;
        }
    }
}

/// Whether every condition of a map has a positive interval, which the condition schedules divide
/// by: a caller that stores conditions by their public fields tests this before a condition tick.
pub fn conditions_are_schedulable(conditions: &ConditionMap) -> (r: bool)
    ensures
        r == conditions_schedulable(condition_views(conditions@)),
{
    let ghost m = condition_views(conditions@);
    let mut code: u16 = 0;
    while code < 256
        invariant
            code <= 256,
            m == condition_views(conditions@),
            forall|k: u8| (k as int) < code && #[trigger] m.contains_key(k) ==> m[k].interval_seconds > 0,
        decreases 256 - code,
    {
        let k = code as u8;
        if let Some(c) = conditions.get(&k) {
            if c.interval_seconds == 0 {
                assert(m.contains_key(k) && m[k].interval_seconds == 0);
                return false;
            }
        }
        code = code + 1;
    }
    true
}

/// Total pending damage of a condition map over the elapsed period (saturating `u32`).
pub fn pending_condition_damage(conditions: &ConditionMap, elapsed: u16) -> (r: u32)
    requires
        conditions_schedulable(condition_views(conditions@)),
    ensures
        r == pending_damage_from(condition_views(conditions@), elapsed, 0),
{
    let ghost m = condition_views(conditions@);
    let mut total: u32 = 0;
    let mut code: u16 = 256;
    while code > 0
        invariant
            code <= 256,
            m == condition_views(conditions@),
            conditions_schedulable(m),
            total == pending_damage_from(m, elapsed, code as int),
        decreases code,
    {
        code = code - 1;
        let k = code as u8;
        assert(k == code);
        let here: u32 = match conditions.get(&k) {
            Some(c) => {
                assert(m.contains_key(k) && m[k] == c@);
                if c.kind.is_damage_over_time() {
                    let active = if elapsed <= c.remaining_seconds { elapsed } else { c.remaining_seconds };
                    let events = c.elapsed_seconds.saturating_add(active) / c.interval_seconds;
                    proof {
                        assert(events <= u16::MAX);
                        assert(events * c.damage <= 65535 * 65535) by (nonlinear_arith)
                            requires events <= 65535, c.damage <= 65535;
                    }
                    (events as u32) * (c.damage as u32)
                } else {
                    0
                }
            },
            None => {
                assert(!m.contains_key(k));
                0
            },
        };
        proof { lemma_pending_bounded(m, elapsed, code as int + 1); }
        total = here.saturating_add(total);
    }
    total
}

/// Advances every condition by the elapsed period and drops those that ran out; returns the
/// number of dropped conditions.
pub fn advance_conditions(conditions: &mut ConditionMap, elapsed: u16) -> (r: usize)
    requires
        conditions_schedulable(condition_views(old(conditions)@)),
    ensures
        condition_views(final(conditions)@) == conditions_after(condition_views(old(conditions)@), elapsed),
        r == expired_count(condition_views(old(conditions)@), elapsed),
        r <= 256,
{
    let ghost m = condition_views(conditions@);
    let mut next: ConditionMap = BTreeMap::new();
    let mut expired: usize = 0;
    let mut code: u16 = 0;
    while code < 256
        invariant
            code <= 256,
            m == condition_views(conditions@),
            conditions_schedulable(m),
            condition_views(next@) == conditions_after(m, elapsed).restrict(Set::new(|k: u8| k < code)),
            expired + expired_from(m, elapsed, code as int) == expired_count(m, elapsed),
            expired <= code,
        decreases 256 - code,
    {
        let k = code as u8;
        assert(k == code);
        let ghost before_next = condition_views(next@);
        match conditions.get(&k) {
            Some(c) => {
                assert(m.contains_key(k) && m[k] == c@);
                let active = if elapsed <= c.remaining_seconds { elapsed } else { c.remaining_seconds };
                let total = c.elapsed_seconds.saturating_add(active);
                let advanced = PlayerCondition {
                    kind: c.kind,
                    interval_seconds: c.interval_seconds,
                    damage: c.damage,
                    speed_bonus_percent: c.speed_bonus_percent,
                    remaining_seconds: c.remaining_seconds - active,
                    elapsed_seconds: total % c.interval_seconds,
                };
                assert(advanced@ == condition_advanced(m[k], elapsed));
                if advanced.remaining_seconds == 0 {
                    expired = expired + 1;
                    assert(condition_views(next@) =~= conditions_after(m, elapsed).restrict(Set::new(|x: u8| x < code + 1)));
                } else {
                    next.insert(k, advanced);
                    assert(condition_views(next@) =~= before_next.insert(k, advanced@));
                    assert(condition_views(next@) =~= conditions_after(m, elapsed).restrict(Set::new(|x: u8| x < code + 1)));
                }
            },
            None => {
                assert(!m.contains_key(k));
                assert(condition_views(next@) =~= conditions_after(m, elapsed).restrict(Set::new(|x: u8| x < code + 1)));
            },
        }
        code = code + 1;
    }
    assert(conditions_after(m, elapsed).restrict(Set::new(|x: u8| x < 256)) =~= conditions_after(m, elapsed));
    *conditions = next;
    expired
}

} // verus!
