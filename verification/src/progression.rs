//! Players, vitals, skills, vocations, experience and regeneration arithmetic.

use vstd::prelude::*;
use crate::error::CoreError;
use crate::geometry::Position;

verus! {

pub const MINIMUM_PLAYER_SKILL_LEVEL: u16 = 10;
pub const MAX_PROGRESSION_MULTIPLIER_MILLI: u32 = 100_000;
pub const MAX_EXPERIENCE_AWARD_RATE: u32 = 100_000;
pub const PROGRESSION_MULTIPLIER_SCALE: u64 = 1_000;
pub const MAX_REGENERATION_ELAPSED_SECONDS: u16 = 60;
/// Classic food cadence: one health per interval while the food window is active.
pub const FOOD_REGENERATION_INTERVAL_SECONDS: u16 = 4;
pub const FOOD_REGENERATION_HEALTH_PER_INTERVAL: u16 = 1;

/// `min(a * b, u64::MAX)`.
pub open spec fn sat_mul_u64(a: int, b: int) -> int {
    if a * b > u64::MAX { u64::MAX as int } else { a * b }
}

/// `min(a + b, max)`.
pub open spec fn sat_add(a: int, b: int, max: int) -> int {
    if a + b > max { max } else { a + b }
}

pub open spec fn min_int(a: int, b: int) -> int {
    if a <= b { a } else { b }
}

pub fn saturating_mul_u64(a: u64, b: u64) -> (r: u64)
    ensures
        r == sat_mul_u64(a as int, b as int),
{
    match a.checked_mul(b) {
        Some(v) => v,
        None => u64::MAX,
    }
}

#[derive(Debug, Clone, PartialEq, Eq)]
pub struct Player {
    pub id: u64,
    pub account_id: u64,
    pub name: String,
    pub position: Position,
    pub level: u32,
    pub experience: u64,
    pub skill_points: u32,
}

/// The classic cumulative experience requirement of a one-based level, before any storage bound.
pub open spec fn classic_experience(level: int) -> int {
    (level * level * level - 6 * level * level + 17 * level - 12) / 6 * 100
}

/// The requirement of `level` when it fits `u64` storage.
pub open spec fn spec_classic_experience_for_level(level: u32) -> Option<u64> {
    if level == 0 || classic_experience(level as int) > u64::MAX {
        None
    } else {
        Some(classic_experience(level as int) as u64)
    }
}

/// A level is reachable with `experience` when its requirement fits and does not exceed it.
pub open spec fn level_reachable(level: u32, experience: u64) -> bool {
    match spec_classic_experience_for_level(level) {
        Some(required) => required <= experience,
        None => false,
    }
}

proof fn lemma_numerator_factored(l: int)
    ensures
        l * l * l - 6 * l * l + 17 * l - 12 == (l - 1) * (l * l - 5 * l + 12),
{
    assert(l * l * l - 6 * l * l + 17 * l - 12 == (l - 1) * (l * l - 5 * l + 12)) by (nonlinear_arith);
}

proof fn lemma_numerator_step(l: int)
    requires
        l >= 1,
    ensures
        (l + 1) * (l + 1) * (l + 1) - 6 * (l + 1) * (l + 1) + 17 * (l + 1) - 12
            >= l * l * l - 6 * l * l + 17 * l - 12,
        l * l * l - 6 * l * l + 17 * l - 12 >= 0,
{
    assert((l + 1) * (l + 1) * (l + 1) - 6 * (l + 1) * (l + 1) + 17 * (l + 1) - 12
        - (l * l * l - 6 * l * l + 17 * l - 12) == 3 * l * l - 9 * l + 12) by (nonlinear_arith);
    assert(3 * l * l - 9 * l + 12 > 0) by (nonlinear_arith)
        requires l >= 1;
    lemma_numerator_factored(l);
    assert(l * l - 5 * l + 12 > 0) by (nonlinear_arith);
    assert((l - 1) * (l * l - 5 * l + 12) >= 0) by (nonlinear_arith)
        requires l >= 1, l * l - 5 * l + 12 > 0;
}

/// The classic requirement never decreases with the level.
pub proof fn lemma_classic_experience_monotonic(a: int, b: int)
    requires
        1 <= a <= b,
    ensures
        0 <= classic_experience(a) <= classic_experience(b),
    decreases b - a,
{
    lemma_numerator_step(a);
    if a < b {
        lemma_classic_experience_monotonic(a + 1, b);
        let na = a * a * a - 6 * a * a + 17 * a - 12;
        let nb = (a + 1) * (a + 1) * (a + 1) - 6 * (a + 1) * (a + 1) + 17 * (a + 1) - 12;
        vstd::arithmetic::div_mod::lemma_div_is_ordered(na, nb, 6);
        vstd::arithmetic::div_mod::lemma_div_pos_is_pos(na, 6);
    } else {
        let na = a * a * a - 6 * a * a + 17 * a - 12;
        vstd::arithmetic::div_mod::lemma_div_pos_is_pos(na, 6);
    }
}

/// The requirement of a lower level is reachable whenever a higher one is.
pub proof fn lemma_level_reachable_downward(a: u32, b: u32, experience: u64)
    requires
        1 <= a <= b,
        level_reachable(b, experience),
    ensures
        level_reachable(a, experience),
{
    lemma_classic_experience_monotonic(a as int, b as int);
}

/// Returns the classic cumulative experience requirement for a one-based level; `None` for
/// level zero and for requirements beyond `u64` storage.
pub fn classic_experience_for_level(level: u32) -> (r: Option<u64>)
    ensures
        r == spec_classic_experience_for_level(level),
{
    if level == 0 {
        return None;
    }
    let l = level as u128;
    proof {
        lemma_numerator_factored(l as int);
        lemma_numerator_step(l as int);
        assert(l * l <= 0xffff_ffff_ffff_ffffu128 * 1) by (nonlinear_arith) requires l <= 0xffff_ffffu128;
        assert(l * l + 12 >= 5 * l) by (nonlinear_arith);
    }
    let square = l * l;
    let q = square + 12 - 5 * l;
    proof {
        assert((l - 1) * q <= 0xffff_ffffu128 * (0xffff_ffff_ffff_ffffu128 + 12)) by (nonlinear_arith)
            requires l <= 0xffff_ffffu128, q <= square + 12, square <= 0xffff_ffff_ffff_ffffu128, l >= 1;
    }
    let n = (l - 1) * q;
    let e = n / 6 * 100;
    if e <= u64::MAX as u128 {
        Some(e as u64)
    } else {
        None
    }
}

/// The highest level whose classic requirement does not exceed `experience`.
pub fn level_for_experience(experience: u64) -> (r: u32)
    ensures
        r >= 1,
        level_reachable(r, experience),
        r == u32::MAX || !level_reachable((r + 1) as u32, experience),
{
    let mut low: u32 = 1;
    let mut high: u32 = u32::MAX;
    proof {
        assert(classic_experience(1) == 0);
    }
    while low < high
        invariant
            1 <= low <= high,
            level_reachable(low, experience),
            high == u32::MAX || !level_reachable((high + 1) as u32, experience),
        decreases high - low,
    {
        let gap = high - low;
        let midpoint = low + gap / 2 + gap % 2;
        match classic_experience_for_level(midpoint) {
            Some(required) => {
                if required <= experience {
                    low = midpoint;
                } else {
                    high = midpoint - 1;
                }
            },
            None => {
                high = midpoint - 1;
            },
        }
    }
    low
}

/// Reachable levels are exactly those up to the resolved level.
pub proof fn lemma_level_for_experience_is_exact(level: u32, resolved: u32, experience: u64)
    requires
        resolved >= 1,
        level_reachable(resolved, experience),
        resolved == u32::MAX || !level_reachable((resolved + 1) as u32, experience),
        1 <= level,
    ensures
        level_reachable(level, experience) <==> level <= resolved,
{
    if level <= resolved {
        lemma_level_reachable_downward(level, resolved, experience);
    } else if level_reachable(level, experience) {
        lemma_level_reachable_downward((resolved + 1) as u32, level, experience);
    }
}

impl Player {
    /// A copy equal to this player.
    pub fn duplicate(&self) -> (r: Player)
        ensures
            r == *self,
    {
        Player {
            id: self.id,
            account_id: self.account_id,
            name: self.name.clone(),
            position: self.position,
            level: self.level,
            experience: self.experience,
            skill_points: self.skill_points,
        }
    }

    /// Adds experience (saturating) and re-resolves the level from the new total.
    pub fn add_experience(&mut self, amount: u64)
        ensures
            final(self).experience == sat_add(old(self).experience as int, amount as int, u64::MAX as int),
            final(self).level >= 1,
            level_reachable(final(self).level, final(self).experience),
            final(self).level == u32::MAX || !level_reachable((final(self).level + 1) as u32, final(self).experience),
            final(self).id == old(self).id,
            final(self).account_id == old(self).account_id,
            final(self).name == old(self).name,
            final(self).position == old(self).position,
            final(self).skill_points == old(self).skill_points,
    {
        self.experience = self.experience.saturating_add(amount);
        self.level = level_for_experience(self.experience);
    }
}

#[derive(Debug, Clone, Copy, PartialEq, Eq, Structural)]
pub struct PlayerVitals {
    pub health: u16,
    pub max_health: u16,
    pub mana: u16,
    pub max_mana: u16,
    pub capacity: u16,
    pub magic_level: u8,
}

pub open spec fn vitals_valid(v: PlayerVitals) -> bool {
    v.max_health > 0 && v.health <= v.max_health && v.mana <= v.max_mana
}

pub open spec fn default_vitals() -> PlayerVitals {
    PlayerVitals { health: 150, max_health: 150, mana: 50, max_mana: 50, capacity: 40_000, magic_level: 0 }
}

impl PlayerVitals {
    pub fn is_valid(self) -> (r: bool)
        ensures
            r == vitals_valid(self),
    {
        self.max_health > 0 && self.health <= self.max_health && self.mana <= self.max_mana
    }
}

impl Default for PlayerVitals {
    fn default() -> (r: PlayerVitals)
        ensures
            r == default_vitals(),
    {
        PlayerVitals { health: 150, max_health: 150, mana: 50, max_mana: 50, capacity: 40_000, magic_level: 0 }
    }
}

/// The seven classic player skills in their protocol order.
#[derive(Debug, Clone, Copy, PartialEq, Eq, PartialOrd, Ord, Structural)]
pub enum PlayerSkill {
    Fist,
    Club,
    Sword,
    Axe,
    Distance,
    Shielding,
    Fishing,
}

pub open spec fn skill_code(skill: PlayerSkill) -> u8 {
    match skill {
        PlayerSkill::Fist => 0,
        PlayerSkill::Club => 1,
        PlayerSkill::Sword => 2,
        PlayerSkill::Axe => 3,
        PlayerSkill::Distance => 4,
        PlayerSkill::Shielding => 5,
        PlayerSkill::Fishing => 6,
    }
}

pub open spec fn skill_from_code(code: u8) -> Option<PlayerSkill> {
    if code == 0 { Some(PlayerSkill::Fist) }
    else if code == 1 { Some(PlayerSkill::Club) }
    else if code == 2 { Some(PlayerSkill::Sword) }
    else if code == 3 { Some(PlayerSkill::Axe) }
    else if code == 4 { Some(PlayerSkill::Distance) }
    else if code == 5 { Some(PlayerSkill::Shielding) }
    else if code == 6 { Some(PlayerSkill::Fishing) }
    else { None }
}

impl PlayerSkill {
    pub const ALL: [PlayerSkill; 7] = [
        PlayerSkill::Fist,
        PlayerSkill::Club,
        PlayerSkill::Sword,
        PlayerSkill::Axe,
        PlayerSkill::Distance,
        PlayerSkill::Shielding,
        PlayerSkill::Fishing,
    ];

    pub fn code(self) -> (r: u8)
        ensures
            r == skill_code(self),
            r < 7,
    {
        match self {
            PlayerSkill::Fist => 0,
            PlayerSkill::Club => 1,
            PlayerSkill::Sword => 2,
            PlayerSkill::Axe => 3,
            PlayerSkill::Distance => 4,
            PlayerSkill::Shielding => 5,
            PlayerSkill::Fishing => 6,
        }
    }

    pub fn from_code(code: u8) -> (r: Option<PlayerSkill>)
        ensures
            r == skill_from_code(code),
    {
        match code {
            0 => Some(PlayerSkill::Fist),
            1 => Some(PlayerSkill::Club),
            2 => Some(PlayerSkill::Sword),
            3 => Some(PlayerSkill::Axe),
            4 => Some(PlayerSkill::Distance),
            5 => Some(PlayerSkill::Shielding),
            6 => Some(PlayerSkill::Fishing),
            _ => None,
        }
    }
}

/// Every skill code decodes back to its skill.
pub proof fn lemma_skill_code_roundtrip(skill: PlayerSkill, code: u8)
    ensures
        skill_from_code(skill_code(skill)) == Some(skill),
        skill_from_code(code) is Some <==> code < 7,
        skill_from_code(code) is Some ==> skill_code(skill_from_code(code)->0) == code,
{
}

/// The player-visible level and percentage progress of one skill.
#[derive(Debug, Clone, Copy, PartialEq, Eq, Structural)]
pub struct SkillProgress {
    pub level: u16,
    pub percent: u8,
}

impl SkillProgress {
    pub fn new(level: u16, percent: u8) -> (r: Result<SkillProgress, CoreError>)
        ensures
            (level == 0 || percent > 100) ==> r == Err::<SkillProgress, CoreError>(CoreError::InvalidSkillProgress { level, percent }),
            !(level == 0 || percent > 100) ==> r == Ok::<SkillProgress, CoreError>(SkillProgress { level, percent }),
    {
        if level == 0 || percent > 100 {
            return Err(CoreError::InvalidSkillProgress { level, percent });
        }
        Ok(SkillProgress { level, percent })
    }
}

impl Default for SkillProgress {
    fn default() -> (r: SkillProgress)
        ensures
            r == (SkillProgress { level: 10, percent: 0 }),
    {
        SkillProgress { level: 10, percent: 0 }
    }
}

/// A fixed, validated collection of all classic skills in protocol order.
#[derive(Debug, Clone, Copy, PartialEq, Eq)]
pub struct PlayerSkills {
    values: [SkillProgress; 7],
}

impl View for PlayerSkills {
    type V = Seq<SkillProgress>;

    open spec fn view(&self) -> Seq<SkillProgress> {
        self.skill_seq()
    }
}

impl PlayerSkills {
    pub closed spec fn skill_seq(&self) -> Seq<SkillProgress> {
        self.values@
    }

    /// A skill collection always holds the seven classic skills.
    pub proof fn lemma_len(&self)
        ensures
            self@.len() == 7,
    {
    }

    /// The skills of an array ordered by skill code.
    pub fn from_array(values: [SkillProgress; 7]) -> (r: PlayerSkills)
        ensures
            r@ == values@,
    {
        PlayerSkills { values }
    }

    pub fn skill(self, skill: PlayerSkill) -> (r: SkillProgress)
        ensures
            r == self@[skill_code(skill) as int],
    {
        self.values[skill.code() as usize]
    }

    /// Replaces one skill's progress; reports whether anything changed.
    pub fn set(&mut self, skill: PlayerSkill, progress: SkillProgress) -> (r: bool)
        ensures
            final(self)@ == old(self)@.update(skill_code(skill) as int, progress),
            r == (old(self)@[skill_code(skill) as int] != progress),
    {
        let i = skill.code() as usize;
        let current = self.values[i];
        if current == progress {
            assert(self@ =~= old(self)@.update(skill_code(skill) as int, progress));
            return false;
        }
        self.values[i] = progress;
        true
    }

    /// Every skill with its progress, in protocol order.
    pub fn iter(self) -> (r: Vec<(PlayerSkill, SkillProgress)>)
        ensures
            r@.len() == 7,
            forall|i: int| 0 <= i < 7 ==> skill_code((#[trigger] r@[i]).0) == i && r@[i].1 == self@[i],
    {
        let mut out: Vec<(PlayerSkill, SkillProgress)> = Vec::new();
        let mut code: u8 = 0;
        while code < 7
            invariant
                code <= 7,
                out@.len() == code,
                forall|i: int| 0 <= i < code ==> skill_code((#[trigger] out@[i]).0) == i && out@[i].1 == self@[i],
            decreases 7 - code,
        {
            let skill = PlayerSkill::from_code(code).unwrap();
            out.push((skill, self.values[code as usize]));
            code = code + 1;
        }
        out
    }

    /// Model equality of two skill sets.
    pub fn same_as(&self, other: &PlayerSkills) -> (r: bool)
        ensures
            r == (self@ == other@),
    {
        let mut i: usize = 0;
        while i < 7
            invariant
                i <= 7,
                self@.len() == 7,
                other@.len() == 7,
                forall|j: int| 0 <= j < i ==> (#[trigger] self@[j]) == other@[j],
            decreases 7 - i,
        {
            if self.values[i] != other.values[i] {
                return false;
            }
            i += 1;
        }
        assert(self@ =~= other@);
        true
    }
}

/// Every skill at the classic minimum level with no progress.
pub closed spec fn initial_skills() -> PlayerSkills {
    let d = SkillProgress { level: 10, percent: 0 };
    PlayerSkills { values: [d, d, d, d, d, d, d] }
}

impl Default for PlayerSkills {
    fn default() -> (r: PlayerSkills)
        ensures
            r == initial_skills(),
            forall|i: int| 0 <= i < 7 ==> (#[trigger] r@[i]) == (SkillProgress { level: 10, percent: 0 }),
            r@.len() == 7,
    {
        let d = SkillProgress { level: 10, percent: 0 };
        PlayerSkills { values: [d, d, d, d, d, d, d] }
    }
}

/// A numeric vocation identity.
#[derive(Debug, Clone, Copy, PartialEq, Eq, PartialOrd, Ord, Default, Structural)]
pub struct VocationId(u16);

/// The portable base-vocation identities.
#[derive(Debug, Clone, Copy, PartialEq, Eq, Structural)]
pub enum BaseVocation {
    Unassigned,
    Sorcerer,
    Druid,
    Paladin,
    Knight,
}

pub open spec fn base_vocation_code(v: BaseVocation) -> u16 {
    match v {
        BaseVocation::Unassigned => 0,
        BaseVocation::Sorcerer => 1,
        BaseVocation::Druid => 2,
        BaseVocation::Paladin => 3,
        BaseVocation::Knight => 4,
    }
}

pub open spec fn base_vocation_from_code(id: u16) -> Option<BaseVocation> {
    if id == 0 { Some(BaseVocation::Unassigned) }
    else if id == 1 { Some(BaseVocation::Sorcerer) }
    else if id == 2 { Some(BaseVocation::Druid) }
    else if id == 3 { Some(BaseVocation::Paladin) }
    else if id == 4 { Some(BaseVocation::Knight) }
    else { None }
}

impl VocationId {
    pub closed spec fn spec_value(self) -> u16 {
        self.0
    }

    pub fn new(value: u16) -> (r: VocationId)
        ensures
            r.spec_value() == value,
    {
        VocationId(value)
    }

    pub fn value(self) -> (r: u16)
        ensures
            r == self.spec_value(),
    {
        self.0
    }

    pub fn base(self) -> (r: Option<BaseVocation>)
        ensures
            r == base_vocation_from_code(self.spec_value()),
    {
        BaseVocation::from_id(self.0)
    }
}

impl BaseVocation {
    pub fn id(self) -> (r: VocationId)
        ensures
            r.spec_value() == base_vocation_code(self),
    {
        match self {
            BaseVocation::Unassigned => VocationId::new(0),
            BaseVocation::Sorcerer => VocationId::new(1),
            BaseVocation::Druid => VocationId::new(2),
            BaseVocation::Paladin => VocationId::new(3),
            BaseVocation::Knight => VocationId::new(4),
        }
    }

    pub fn from_id(id: u16) -> (r: Option<BaseVocation>)
        ensures
            r == base_vocation_from_code(id),
    {
        match id {
            0 => Some(BaseVocation::Unassigned),
            1 => Some(BaseVocation::Sorcerer),
            2 => Some(BaseVocation::Druid),
            3 => Some(BaseVocation::Paladin),
            4 => Some(BaseVocation::Knight),
            _ => None,
        }
    }
}

/// Persisted vocation and skills of one player.
#[derive(Debug, Clone, Copy, PartialEq, Eq, Default)]
pub struct PlayerProgression {
    pub vocation: VocationId,
    pub skills: PlayerSkills,
}

/// The vocation identity that means no vocation.
pub closed spec fn no_vocation() -> VocationId {
    VocationId(0)
}

/// A new character's progression: no vocation and every skill at its minimum.
pub open spec fn initial_progression() -> PlayerProgression {
    PlayerProgression { vocation: no_vocation(), skills: initial_skills() }
}

impl PlayerProgression {
    pub fn initial() -> (r: PlayerProgression)
        ensures
            r == initial_progression(),
    {
        PlayerProgression { vocation: VocationId(0), skills: PlayerSkills::default() }
    }
}

/// Model equality of two progression states.
pub fn same_progression(a: &PlayerProgression, b: &PlayerProgression) -> (r: bool)
    ensures
        r == (a.vocation == b.vocation && a.skills@ == b.skills@),
{
    a.vocation == b.vocation && a.skills.same_as(&b.skills)
}

/// A validated fixed-point multiplier in thousandths.
#[derive(Debug, Clone, Copy, PartialEq, Eq, Structural)]
pub struct ProgressionMultiplier {
    milli: u32,
}

impl ProgressionMultiplier {
    pub closed spec fn spec_milli(self) -> u32 {
        self.milli
    }

    pub fn new(milli: u32) -> (r: Result<ProgressionMultiplier, CoreError>)
        ensures
            (milli == 0 || milli > MAX_PROGRESSION_MULTIPLIER_MILLI) ==> r == Err::<ProgressionMultiplier, CoreError>(CoreError::InvalidProgressionMultiplier(milli)),
            !(milli == 0 || milli > MAX_PROGRESSION_MULTIPLIER_MILLI) ==> r is Ok && r->Ok_0.spec_milli() == milli,
    {
        if milli == 0 || milli > MAX_PROGRESSION_MULTIPLIER_MILLI {
            return Err(CoreError::InvalidProgressionMultiplier(milli));
        }
        Ok(ProgressionMultiplier { milli })
    }

    pub fn milli(self) -> (r: u32)
        ensures
            r == self.spec_milli(),
    {
        self.milli
    }
}

/// One inclusive level range of an experience-award policy, scaled in thousandths.
#[derive(Debug, Clone, Copy, PartialEq, Eq, Structural)]
pub struct ExperienceAwardStage {
    pub min_level: u32,
    pub max_level: u32,
    pub multiplier_milli: u32,
}

impl ExperienceAwardStage {
    pub fn new(min_level: u32, max_level: u32, multiplier_milli: u32) -> (r: Result<ExperienceAwardStage, CoreError>)
        ensures
            (min_level == 0 || max_level < min_level || multiplier_milli == 0 || multiplier_milli > MAX_PROGRESSION_MULTIPLIER_MILLI)
                ==> r == Err::<ExperienceAwardStage, CoreError>(CoreError::InvalidExperienceAwardPolicy),
            !(min_level == 0 || max_level < min_level || multiplier_milli == 0 || multiplier_milli > MAX_PROGRESSION_MULTIPLIER_MILLI)
                ==> r == Ok::<ExperienceAwardStage, CoreError>(ExperienceAwardStage { min_level, max_level, multiplier_milli }),
    {
        if min_level == 0 || max_level < min_level || multiplier_milli == 0 || multiplier_milli > MAX_PROGRESSION_MULTIPLIER_MILLI {
            return Err(CoreError::InvalidExperienceAwardPolicy);
        }
        Ok(ExperienceAwardStage { min_level, max_level, multiplier_milli })
    }
}

/// Validated experience-award inputs: a flat rate and ordered non-overlapping level stages.
#[derive(Debug, Clone, PartialEq, Eq)]
pub struct ExperienceAwardPolicy {
    flat_rate: u32,
    stages: Vec<ExperienceAwardStage>,
}

/// Every stage ends before the next one begins.
pub open spec fn stages_ordered(stages: Seq<ExperienceAwardStage>) -> bool {
    forall|i: int| 0 <= i < stages.len() - 1 ==> (#[trigger] stages[i]).max_level < stages[i + 1].min_level
}

/// The multiplier in thousandths of the first stage holding `level`, or the neutral scale.
pub open spec fn stage_multiplier(stages: Seq<ExperienceAwardStage>, level: u32, start: int) -> int
    decreases stages.len() - start,
{
    if start < 0 || start >= stages.len() {
        PROGRESSION_MULTIPLIER_SCALE as int
    } else if stages[start].min_level <= level && level <= stages[start].max_level {
        stages[start].multiplier_milli as int
    } else {
        stage_multiplier(stages, level, start + 1)
    }
}

proof fn lemma_stage_multiplier_bounded(stages: Seq<ExperienceAwardStage>, level: u32, start: int)
    requires
        0 <= start,
    ensures
        stage_multiplier(stages, level, start) <= u32::MAX,
        stage_multiplier(stages, level, start) >= 0,
    decreases stages.len() - start,
{
    if start < stages.len() {
        lemma_stage_multiplier_bounded(stages, level, start + 1);
    }
}

impl ExperienceAwardPolicy {
    pub closed spec fn spec_flat_rate(&self) -> u32 {
        self.flat_rate
    }

    pub closed spec fn spec_stages(&self) -> Seq<ExperienceAwardStage> {
        self.stages@
    }

    /// The award for `raw_experience` at `level`: saturating `raw * rate * stage / 1000`.
    pub open spec fn spec_award_for(&self, level: u32, raw_experience: u64) -> u64 {
        (sat_mul_u64(sat_mul_u64(raw_experience as int, self.spec_flat_rate() as int),
            stage_multiplier(self.spec_stages(), level, 0)) / (PROGRESSION_MULTIPLIER_SCALE as int)) as u64
    }

    pub fn new(flat_rate: u32, stages: Vec<ExperienceAwardStage>) -> (r: Result<ExperienceAwardPolicy, CoreError>)
        ensures
            (flat_rate > MAX_EXPERIENCE_AWARD_RATE || !stages_ordered(stages@))
                ==> r == Err::<ExperienceAwardPolicy, CoreError>(CoreError::InvalidExperienceAwardPolicy),
            !(flat_rate > MAX_EXPERIENCE_AWARD_RATE || !stages_ordered(stages@))
                ==> r is Ok && r->Ok_0.spec_flat_rate() == flat_rate && r->Ok_0.spec_stages() == stages@,
    {
        if flat_rate > MAX_EXPERIENCE_AWARD_RATE {
            return Err(CoreError::InvalidExperienceAwardPolicy);
        }
        let mut i: usize = 0;
        while i < stages.len() && i + 1 < stages.len()
            invariant
                i <= stages@.len(),
                forall|j: int| 0 <= j < i && j < stages@.len() - 1 ==> (#[trigger] stages@[j]).max_level < stages@[j + 1].min_level,
            decreases stages@.len() - i,
        {
            if stages[i].max_level >= stages[i + 1].min_level {
                return Err(CoreError::InvalidExperienceAwardPolicy);
            }
            i += 1;
        }
        Ok(ExperienceAwardPolicy { flat_rate, stages })
    }

    pub fn flat_rate(&self) -> (r: u32)
        ensures
            r == self.spec_flat_rate(),
    {
        self.flat_rate
    }

    pub fn stages(&self) -> (r: &[ExperienceAwardStage])
        ensures
            r@ == self.spec_stages(),
    {
        self.stages.as_slice()
    }

    fn stage_multiplier_for(&self, level: u32) -> (r: u64)
        ensures
            r == stage_multiplier(self.spec_stages(), level, 0),
    {
        let mut i: usize = 0;
        while i < self.stages.len()
            invariant
                i <= self.stages@.len(),
                stage_multiplier(self.stages@, level, 0) == stage_multiplier(self.stages@, level, i as int),
            decreases self.stages@.len() - i,
        {
            let stage = self.stages[i];
            if stage.min_level <= level && level <= stage.max_level {
                return stage.multiplier_milli as u64;
            }
            i += 1;
        }
        PROGRESSION_MULTIPLIER_SCALE
    }

    pub fn award_for(&self, level: u32, raw_experience: u64) -> (r: u64)
        ensures
            r == self.spec_award_for(level, raw_experience),
    {
        let multiplier = self.stage_multiplier_for(level);
        saturating_mul_u64(saturating_mul_u64(raw_experience, self.flat_rate as u64), multiplier) / PROGRESSION_MULTIPLIER_SCALE
    }
}

#[derive(Debug, Clone, Copy, PartialEq, Eq, Structural)]
pub struct PlayerExperienceAwardOutcome {
    pub player_id: u64,
    pub raw_experience: u64,
    pub awarded_experience: u64,
    pub experience: u64,
    pub level: u32,
    pub gained_levels: u32,
    pub vitals: PlayerVitals,
}

/// Validated per-level vitality and capacity gains of one vocation.
#[derive(Debug, Clone, Copy, Default, PartialEq, Eq, Structural)]
pub struct VocationLevelUpGains {
    pub health: u16,
    pub mana: u16,
    pub capacity: u16,
}

/// `amount * levels`, capped at `u16::MAX`.
pub open spec fn scaled_gain(amount: u16, levels: u32) -> u16 {
    if amount * levels > u16::MAX { u16::MAX } else { (amount * levels) as u16 }
}

pub open spec fn sat_add_u16(a: u16, b: u16) -> u16 {
    sat_add(a as int, b as int, u16::MAX as int) as u16
}

/// Vitals after `levels` level-ups with the given per-level gains.
pub open spec fn gains_applied(gains: VocationLevelUpGains, vitals: PlayerVitals, levels: u32) -> PlayerVitals {
    let health = scaled_gain(gains.health, levels);
    let mana = scaled_gain(gains.mana, levels);
    let capacity = scaled_gain(gains.capacity, levels);
    PlayerVitals {
        health: sat_add_u16(vitals.health, health),
        max_health: sat_add_u16(vitals.max_health, health),
        mana: sat_add_u16(vitals.mana, mana),
        max_mana: sat_add_u16(vitals.max_mana, mana),
        capacity: sat_add_u16(vitals.capacity, capacity),
        ..vitals
    }
}

impl VocationLevelUpGains {
    pub fn new(health: u16, mana: u16, capacity: u16) -> (r: VocationLevelUpGains)
        ensures
            r == (VocationLevelUpGains { health, mana, capacity }),
    {
        VocationLevelUpGains { health, mana, capacity }
    }

    fn scaled_amount(amount: u16, gained_levels: u32) -> (r: u16)
        ensures
            r == scaled_gain(amount, gained_levels),
    {
        proof {
            assert((amount as u64) * (gained_levels as u64) <= 0xffffu64 * 0xffff_ffffu64) by (nonlinear_arith)
                requires amount <= 0xffffu16, gained_levels <= 0xffff_ffffu32;
        }
        let total = (amount as u64) * (gained_levels as u64);
        if total > u16::MAX as u64 { u16::MAX } else { total as u16 }
    }

    pub fn apply(self, vitals: PlayerVitals, gained_levels: u32) -> (r: PlayerVitals)
        ensures
            r == gains_applied(self, vitals, gained_levels),
    {
        let health = Self::scaled_amount(self.health, gained_levels);
        let mana = Self::scaled_amount(self.mana, gained_levels);
        let capacity = Self::scaled_amount(self.capacity, gained_levels);
        PlayerVitals {
            health: vitals.health.saturating_add(health),
            max_health: vitals.max_health.saturating_add(health),
            mana: vitals.mana.saturating_add(mana),
            max_mana: vitals.max_mana.saturating_add(mana),
            capacity: vitals.capacity.saturating_add(capacity),
            magic_level: vitals.magic_level,
        }
    }
}

/// Formula inputs derived from one validated vocation definition. The requirement formulas
/// that use these multipliers are evaluated by the host, outside this library.
#[derive(Debug, Clone, Copy, PartialEq, Eq)]
pub struct PlayerProgressionRules {
    pub magic_level_multiplier: ProgressionMultiplier,
    pub skill_multipliers: [ProgressionMultiplier; 7],
}

/// Exact remaining progression counters per skill plus spent magic mana.
#[derive(Debug, Clone, Copy, PartialEq, Eq)]
pub struct PlayerProgressionAttempts {
    skill_tries: [u64; 7],
    magic_mana: u64,
}

impl PlayerProgressionAttempts {
    pub closed spec fn spec_skill_tries(self) -> Seq<u64> {
        self.skill_tries@
    }

    pub closed spec fn spec_magic_mana(self) -> u64 {
        self.magic_mana
    }

    pub fn new(skill_tries: [u64; 7], magic_mana: u64) -> (r: PlayerProgressionAttempts)
        ensures
            r.spec_skill_tries() == skill_tries@,
            r.spec_magic_mana() == magic_mana,
    {
        PlayerProgressionAttempts { skill_tries, magic_mana }
    }

    pub fn all_skill_tries(self) -> (r: [u64; 7])
        ensures
            r@ == self.spec_skill_tries(),
    {
        self.skill_tries
    }

    pub fn skill_tries(self, skill: PlayerSkill) -> (r: u64)
        ensures
            r == self.spec_skill_tries()[skill_code(skill) as int],
    {
        self.skill_tries[skill.code() as usize]
    }

    pub fn magic_mana(self) -> (r: u64)
        ensures
            r == self.spec_magic_mana(),
    {
        self.magic_mana
    }

    /// Equal counters make equal values.
    pub proof fn lemma_counters_determine(self, other: PlayerProgressionAttempts)
        requires
            self.spec_skill_tries() == other.spec_skill_tries(),
            self.spec_magic_mana() == other.spec_magic_mana(),
        ensures
            self == other,
    {
        broadcast use vstd::array::axiom_array_ext_equal;
        assert(self.skill_tries =~= other.skill_tries);
    }

    /// Model equality of two counter sets.
    pub fn same_as(&self, other: &PlayerProgressionAttempts) -> (r: bool)
        ensures
            r == (self.spec_skill_tries() == other.spec_skill_tries() && self.spec_magic_mana() == other.spec_magic_mana()),
    {
        if self.magic_mana != other.magic_mana {
            return false;
        }
        let mut i: usize = 0;
        while i < 7
            invariant
                i <= 7,
                self.skill_tries@.len() == 7,
                other.skill_tries@.len() == 7,
                forall|j: int| 0 <= j < i ==> (#[trigger] self.skill_tries@[j]) == other.skill_tries@[j],
            decreases 7 - i,
        {
            if self.skill_tries[i] != other.skill_tries[i] {
                return false;
            }
            i += 1;
        }
        assert(self.skill_tries@ =~= other.skill_tries@);
        true
    }

    /// The same counters with one skill's tries replaced.
    pub fn with_skill_tries(self, skill: PlayerSkill, tries: u64) -> (r: PlayerProgressionAttempts)
        ensures
            r.spec_skill_tries() == self.spec_skill_tries().update(skill_code(skill) as int, tries),
            r.spec_magic_mana() == self.spec_magic_mana(),
    {
        let mut r = self;
        r.skill_tries[skill.code() as usize] = tries;
        r
    }

    /// The same counters with the magic mana replaced.
    pub fn with_magic_mana(self, mana: u64) -> (r: PlayerProgressionAttempts)
        ensures
            r.spec_skill_tries() == self.spec_skill_tries(),
            r.spec_magic_mana() == mana,
    {
        let mut r = self;
        r.magic_mana = mana;
        r
    }
}

/// No skill tries and no spent magic mana.
pub closed spec fn zero_attempts() -> PlayerProgressionAttempts {
    PlayerProgressionAttempts { skill_tries: [0, 0, 0, 0, 0, 0, 0], magic_mana: 0 }
}

impl Default for PlayerProgressionAttempts {
    fn default() -> (r: PlayerProgressionAttempts)
        ensures
            r == zero_attempts(),
            r.spec_skill_tries() == seq![0u64, 0, 0, 0, 0, 0, 0],
            r.spec_magic_mana() == 0,
    {
        let r = PlayerProgressionAttempts { skill_tries: [0, 0, 0, 0, 0, 0, 0], magic_mana: 0 };
        assert(r.skill_tries@ =~= seq![0u64, 0, 0, 0, 0, 0, 0]);
        r
    }
}

#[derive(Debug, Clone, Copy, PartialEq, Eq, Structural)]
pub struct PlayerSkillTryOutcome {
    pub player_id: u64,
    pub skill: PlayerSkill,
    pub gained_levels: u16,
    pub progress: SkillProgress,
    pub stored_tries: u64,
}

#[derive(Debug, Clone, Copy, PartialEq, Eq, Structural)]
pub struct PlayerMagicAdvanceOutcome {
    pub player_id: u64,
    pub gained_levels: u8,
    pub magic_level: u8,
    pub stored_mana: u64,
}

/// `min(stored * 100 / required, 100)`, or zero when nothing is required.
pub open spec fn spec_progress_percent(stored: u64, required: u64) -> u8 {
    if required == 0 {
        0
    } else {
        let p = sat_mul_u64(stored as int, 100) / (required as int);
        if p > 100 { 100 } else { p as u8 }
    }
}

pub fn progress_percent(stored: u64, required: u64) -> (r: u8)
    ensures
        r == spec_progress_percent(stored, required),
{
    if required == 0 {
        return 0;
    }
    let p = saturating_mul_u64(stored, 100) / required;
    if p > 100 { 100 } else { p as u8 }
}

/// `percent` percent of `value`, computed without intermediate overflow and rounded down.
pub open spec fn spec_fixed_percent_of(value: u64, percent: u8) -> u64 {
    sat_add(sat_mul_u64((value / 100) as int, percent as int), sat_mul_u64((value % 100) as int, percent as int) / 100, u64::MAX as int) as u64
}

pub fn fixed_percent_of(value: u64, percent: u8) -> (r: u64)
    ensures
        r == spec_fixed_percent_of(value, percent),
{
    let whole = saturating_mul_u64(value / 100, percent as u64);
    let remainder = saturating_mul_u64(value % 100, percent as u64) / 100;
    whole.saturating_add(remainder)
}

/// One bounded player-resource regeneration rule.
#[derive(Debug, Clone, Copy, PartialEq, Eq, Structural)]
pub struct RegenerationRule {
    pub interval_seconds: u16,
    pub amount: u16,
}

impl RegenerationRule {
    pub fn new(interval_seconds: u16, amount: u16) -> (r: Result<RegenerationRule, CoreError>)
        ensures
            interval_seconds == 0 ==> r == Err::<RegenerationRule, CoreError>(CoreError::InvalidRegenerationInterval),
            interval_seconds != 0 ==> r == Ok::<RegenerationRule, CoreError>(RegenerationRule { interval_seconds, amount }),
    {
        if interval_seconds == 0 {
            return Err(CoreError::InvalidRegenerationInterval);
        }
        Ok(RegenerationRule { interval_seconds, amount })
    }
}

/// A player's health and mana recovery rules.
#[derive(Debug, Clone, Copy, PartialEq, Eq, Structural)]
pub struct PlayerRegenerationRules {
    pub health: RegenerationRule,
    pub mana: RegenerationRule,
}

#[derive(Debug, Clone, Copy, PartialEq, Eq, Structural)]
pub struct PlayerRegenerationOutcome {
    pub player_id: u64,
    pub health_gained: u16,
    pub mana_gained: u16,
    pub vitals: PlayerVitals,
}

/// Recovery events and the new remainder after `delta` more seconds on a schedule.
pub open spec fn schedule_advance(elapsed: u16, interval: u16, delta: u16) -> (u16, u16) {
    let total = sat_add(elapsed as int, delta as int, u16::MAX as int);
    ((total / (interval as int)) as u16, (total % (interval as int)) as u16)
}

/// Advances one regeneration schedule, returning the number of recovery events.
pub fn advance_regeneration_schedule(elapsed: &mut u16, interval: u16, delta: u16) -> (r: u16)
    requires
        interval > 0,
    ensures
        (r, *final(elapsed)) == schedule_advance(*old(elapsed), interval, delta),
{
    let total = elapsed.saturating_add(delta);
    let events = total / interval;
    *elapsed = total % interval;
    events
}

/// The gain of `events` recoveries of `amount`, capped by the remaining room below `maximum`.
pub open spec fn spec_regeneration_gain(current: u16, maximum: u16, amount: u16, events: u16) -> u16 {
    let requested = min_int(amount * events, u16::MAX as int);
    let raised = sat_add(current as int, requested, u16::MAX as int);
    let capped = min_int(raised, maximum as int);
    if capped >= current { (capped - current) as u16 } else { 0 }
}

pub fn regeneration_gain(current: u16, maximum: u16, amount: u16, events: u16) -> (r: u16)
    ensures
        r == spec_regeneration_gain(current, maximum, amount, events),
        current + r <= u16::MAX,
        current <= maximum ==> current + r <= maximum,
{
    proof {
        assert((amount as u32) * (events as u32) <= 0xffffu32 * 0xffffu32) by (nonlinear_arith)
            requires amount <= 0xffffu16, events <= 0xffffu16;
    }
    let product = (amount as u32) * (events as u32);
    let requested: u16 = if product > u16::MAX as u32 { u16::MAX } else { product as u16 };
    let raised = current.saturating_add(requested);
    let capped = if raised <= maximum { raised } else { maximum };
    capped.saturating_sub(current)
}

/// Character-death loss configuration modes.
#[derive(Debug, Clone, Copy, PartialEq, Eq, Structural)]
pub enum DeathLossPolicy {
    DefaultFormula,
    Disabled,
    FixedPercent(u8),
}

impl DeathLossPolicy {
    /// `-1` selects the default formula, `0` disables loss, `1..=100` is a fixed percentage.
    pub fn from_config(value: i32) -> (r: Result<DeathLossPolicy, CoreError>)
        ensures
            value == -1 ==> r == Ok::<DeathLossPolicy, CoreError>(DeathLossPolicy::DefaultFormula),
            value == 0 ==> r == Ok::<DeathLossPolicy, CoreError>(DeathLossPolicy::Disabled),
            1 <= value <= 100 ==> r == Ok::<DeathLossPolicy, CoreError>(DeathLossPolicy::FixedPercent(value as u8)),
            (value < -1 || value > 100) ==> r == Err::<DeathLossPolicy, CoreError>(CoreError::InvalidDeathLossPolicy),
    {
        if value == -1 {
            Ok(DeathLossPolicy::DefaultFormula)
        } else if value == 0 {
            Ok(DeathLossPolicy::Disabled)
        } else if 1 <= value && value <= 100 {
            Ok(DeathLossPolicy::FixedPercent(value as u8))
        } else {
            Err(CoreError::InvalidDeathLossPolicy)
        }
    }
}

/// Lifecycle state of a player who has died.
#[derive(Debug, Clone, Copy, Default, PartialEq, Eq, Structural)]
pub struct PlayerRespawnState {
    pub dead: bool,
    pub respawn_at: Option<Position>,
    pub death_time: Option<u64>,
    pub loss_applied: bool,
}

pub open spec fn living_state() -> PlayerRespawnState {
    PlayerRespawnState { dead: false, respawn_at: None, death_time: None, loss_applied: false }
}

#[derive(Debug, Clone, Copy, PartialEq, Eq, Structural)]
pub struct PlayerRespawnOutcome {
    pub player_id: u64,
    pub position: Position,
    pub vitals: PlayerVitals,
}

/// Exact authoritative loss result of one fixed-percent death loss.
#[derive(Debug, Clone, Copy, PartialEq, Eq)]
pub struct PlayerDeathLossOutcome {
    pub player_id: u64,
    pub percent: u8,
    pub experience_lost: u64,
    pub skill_tries_lost: [u64; 7],
    pub magic_mana_lost: u64,
    pub level: u32,
    pub progression: PlayerProgression,
    pub progression_attempts: PlayerProgressionAttempts,
    pub vitals: PlayerVitals,
}


/// Regeneration grows with the number of recoveries until the cap: below the maximum, the gain
/// of `events` recoveries of `amount` is their total, `amount * events`, or the room left below
/// the maximum when that is smaller; at or above the maximum nothing is gained.
pub proof fn law_regeneration_gain_counts_every_event(current: u16, maximum: u16, amount: u16, events: u16)
    ensures
        current <= maximum ==> spec_regeneration_gain(current, maximum, amount, events)
            == min_int(amount as int * events as int, maximum - current),
        current >= maximum ==> spec_regeneration_gain(current, maximum, amount, events) == 0,
{
    assert(amount as int * events as int >= 0) by (nonlinear_arith);
}


/// A regeneration schedule accounts for every elapsed second (below the counter's bound): the
/// recoveries times the interval plus what stays on the counter is the counter plus the elapsed
/// time, and what stays is less than one interval.
pub proof fn law_schedule_accounts_every_second(elapsed: u16, interval: u16, delta: u16)
    requires
        interval > 0,
        elapsed + delta <= u16::MAX,
    ensures
        ({
            let (events, rest) = schedule_advance(elapsed, interval, delta);
            &&& events * interval + rest == elapsed + delta
            &&& rest < interval
        }),
{
    let total = elapsed as int + delta as int;
    assert(total == (total / (interval as int)) * (interval as int) + total % (interval as int)) by (nonlinear_arith)
        requires interval > 0;
    assert(0 <= total % (interval as int) < interval) by (nonlinear_arith)
        requires interval > 0;
    assert(0 <= total / (interval as int) <= total) by (nonlinear_arith)
        requires interval > 0, total >= 0;
}


/// A fixed percent of a value is the exact share rounded down, `value * percent / 100`, for
/// every percent up to 100.
pub proof fn law_fixed_percent_is_exact_share(value: u64, percent: u8)
    requires
        percent <= 100,
    ensures
        spec_fixed_percent_of(value, percent) == (value as int * percent as int) / 100,
{
    let q = value as int / 100;
    let r = value as int % 100;
    let p = percent as int;
    assert(value as int == 100 * q + r && 0 <= r < 100 && q >= 0);
    assert(q * p <= q * 100) by (nonlinear_arith) requires 0 <= p <= 100, q >= 0;
    assert(r * p <= 99 * 100) by (nonlinear_arith) requires 0 <= p <= 100, 0 <= r < 100;
    assert(q * 100 <= value as int);
    assert(value as int * p == 100 * (q * p) + r * p) by (nonlinear_arith) requires value as int == 100 * q + r;
    assert((100 * (q * p) + r * p) / 100 == q * p + (r * p) / 100) by (nonlinear_arith) requires q * p >= 0, r * p >= 0;
    assert(q * p + (r * p) / 100 <= value as int) by (nonlinear_arith)
        requires value as int == 100 * q + r, 0 <= p <= 100, q >= 0, 0 <= r < 100;
}

/// Progress toward a requirement is the share of it reached, in whole percent rounded down and
/// capped at 100 (zero for no requirement), wherever the scaled amount fits in `u64`.
pub proof fn law_progress_percent_is_share(stored: u64, required: u64)
    requires
        stored as int * 100 <= u64::MAX,
    ensures
        required == 0 ==> spec_progress_percent(stored, required) == 0,
        required > 0 ==> spec_progress_percent(stored, required) as int
            == min_int((stored as int * 100) / (required as int), 100),
{
}

} // verus!
