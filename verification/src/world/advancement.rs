//! Skill, magic-level and death-loss advancement decisions, one requirement at a time, and the
//! transitions that store their results. The requirement amounts come from the caller.

use vstd::prelude::*;
use crate::error::CoreError;
use crate::progression::{
    PlayerSkill, SkillProgress, PlayerProgression, PlayerProgressionAttempts, PlayerDeathLossOutcome, Player,
    PlayerVitals, PlayerRespawnState, skill_code, level_reachable, spec_fixed_percent_of, fixed_percent_of,
    level_for_experience, PlayerSkillTryOutcome, PlayerMagicAdvanceOutcome, spec_progress_percent, progress_percent,
    MINIMUM_PLAYER_SKILL_LEVEL,
};
use crate::world::{WorldState, WorldModel, bumped};
use crate::world::statics::sat_add;

verus! {

broadcast use {vstd::std_specs::btree::group_btree_axioms, vstd::laws_cmp::group_laws_cmp};

/// One advancement step toward the next level, which requires `required` in total: the level
/// reached, the amount stored toward the level after it, what is left to award, and whether the
/// level was reached (otherwise the award is used up and advancement stops).
pub open spec fn advance_step(stored: u64, awarded: u64, required: u64) -> (u64, u64, bool) {
    let needed: int = if required >= stored { required - stored } else { 0 };
    if awarded < needed {
        (sat_add(stored, awarded), awarded, false)
    } else {
        (0, (awarded - needed) as u64, true)
    }
}

/// One skill or magic advancement step; see `advance_step`.
pub fn advancement_step(stored: u64, awarded: u64, required: u64) -> (r: (u64, u64, bool))
    ensures
        r == advance_step(stored, awarded, required),
{
    let needed = required.saturating_sub(stored);
    if awarded < needed {
        (stored.saturating_add(awarded), awarded, false)
    } else {
        (0, awarded - needed, true)
    }
}

/// Advancing from `level` (at most `max`) with `stored` toward the next level and `awarded` to
/// spend, where `reqs[i]` is what the level after `level` requires in total, `reqs[i + 1]` the
/// one after that, and so on: the level reached, the amount stored toward the next, and the
/// number of levels gained. Advancement stops when the award is used up, at `max`, or where the
/// table ends.
pub open spec fn advance_levels(level: int, max: int, stored: u64, awarded: u64, reqs: Seq<u64>, i: int) -> (int, u64, int)
    decreases reqs.len() - i,
{
    if awarded == 0 || level >= max || i < 0 || i >= reqs.len() {
        (level, stored, 0)
    } else {
        let (s2, left, leveled) = advance_step(stored, awarded, reqs[i]);
        if !leveled {
            (level, s2, 0)
        } else {
            let r = advance_levels(level + 1, max, s2, left, reqs, i + 1);
            (r.0, r.1, r.2 + 1)
        }
    }
}

/// The requirement of table entry `i`, zero past its end.
pub open spec fn requirement_at(reqs: Seq<u64>, i: int) -> u64 {
    if 0 <= i < reqs.len() { reqs[i] } else { 0 }
}

/// A skill's progress after an award of tries: the progress, the tries stored toward the next
/// level (none at the top level), and the levels gained.
pub open spec fn skill_advance(progress: SkillProgress, stored: u64, awarded: u64, reqs: Seq<u64>) -> (SkillProgress, u64, u16) {
    let (level, s, gained) = advance_levels(progress.level as int, u16::MAX as int, stored, awarded, reqs, 0);
    let top = level == u16::MAX as int;
    let kept: u64 = if top { 0 } else { s };
    (SkillProgress { level: level as u16, percent: spec_progress_percent(kept, requirement_at(reqs, gained)) }, kept, gained as u16)
}

/// The magic level after an award of spent mana: the level, the mana stored toward the next level
/// (none at the top level), and the levels gained.
pub open spec fn magic_advance(level: u8, stored: u64, awarded: u64, reqs: Seq<u64>) -> (u8, u64, u8) {
    let (l, s, gained) = advance_levels(level as int, u8::MAX as int, stored, awarded, reqs, 0);
    (l as u8, if l == u8::MAX as int { 0 } else { s }, gained as u8)
}

proof fn lemma_advance_levels_bounds(level: int, max: int, stored: u64, awarded: u64, reqs: Seq<u64>, i: int)
    requires
        level <= max,
        0 <= i,
    ensures
        ({
            let r = advance_levels(level, max, stored, awarded, reqs, i);
            &&& level <= r.0 <= max
            &&& r.2 == r.0 - level
        }),
    decreases reqs.len() - i,
{
    if !(awarded == 0 || level >= max || i < 0 || i >= reqs.len()) {
        let (s2, left, leveled) = advance_step(stored, awarded, reqs[i]);
        if leveled {
            lemma_advance_levels_bounds(level + 1, max, s2, left, reqs, i + 1);
        }
    }
}

/// Runs `advance_levels` on a table.
fn run_advance(level: u16, max: u16, stored: u64, awarded: u64, reqs: &Vec<u64>) -> (r: (u16, u64, u16))
    requires
        level <= max,
    ensures
        ({
            let a = advance_levels(level as int, max as int, stored, awarded, reqs@, 0);
            r.0 == a.0 && r.1 == a.1 && r.2 == a.2
        }),
{
    let mut l = level;
    let mut s = stored;
    let mut left = awarded;
    let mut i: usize = 0;
    proof { lemma_advance_levels_bounds(level as int, max as int, stored, awarded, reqs@, 0); }
    while left > 0 && l < max && i < reqs.len()
        invariant
            level <= l <= max,
            i <= reqs@.len(),
            l == level + i,
            ({
                let a = advance_levels(level as int, max as int, stored, awarded, reqs@, 0);
                let b = advance_levels(l as int, max as int, s, left, reqs@, i as int);
                a.0 == b.0 && a.1 == b.1 && a.2 == b.2 + i
            }),
        decreases reqs.len() - i,
    {
        let (s2, rest, leveled) = advancement_step(s, left, reqs[i]);
        if !leveled {
            s = s2;
            let ghost a = advance_levels(level as int, max as int, stored, awarded, reqs@, 0);
            assert(a.0 == l && a.1 == s2 && a.2 == i);
            return (l, s, i as u16);
        }
        proof { lemma_advance_levels_bounds((l + 1) as int, max as int, s2, rest, reqs@, i + 1); }
        s = s2;
        left = rest;
        l = l + 1;
        i = i + 1;
    }
    (l, s, i as u16)
}

/// One step of rebuilding a level from a remaining total: `None` when the total does not reach
/// `required` (the level stays), else the total left after it.
pub open spec fn rebuild_step(total: u64, required: u64) -> Option<u64> {
    if total < required { None } else { Some((total - required) as u64) }
}

pub fn rebuild_progress_step(total: u64, required: u64) -> (r: Option<u64>)
    ensures
        r == rebuild_step(total, required),
{
    if total < required { None } else { Some(total - required) }
}

/// The level of an experience total.
pub open spec fn level_of(level: u32, experience: u64) -> bool {
    level >= 1 && level_reachable(level, experience) && (level == u32::MAX || !level_reachable((level + 1) as u32, experience))
}

impl WorldState {
    /// Stores one skill's advancement result; true (and the revision moves) when anything changed.
    pub fn store_skill_advance(&mut self, player_id: u64, skill: PlayerSkill, progress: SkillProgress, stored_tries: u64)
        -> (r: Result<bool, CoreError>)
        ensures
            ({
                let m = old(self)@;
                if !m.progressions.contains_key(player_id) || !m.attempts.contains_key(player_id) {
                    r == Err::<bool, CoreError>(CoreError::UnknownPlayer(player_id)) && final(self)@ == m
                } else {
                    let p = m.progressions[player_id];
                    let a = m.attempts[player_id];
                    let k = skill_code(skill) as int;
                    let changed = p.skills@[k] != progress || a.spec_skill_tries()[k] != stored_tries;
                    &&& r == Ok::<bool, CoreError>(changed)
                    &&& !changed ==> final(self)@ == m
                    &&& changed ==> final(self)@.progressions.dom() == m.progressions.dom()
                        && final(self)@.progressions[player_id].vocation == p.vocation
                        && final(self)@.progressions[player_id].skills@ == p.skills@.update(k, progress)
                        && final(self)@.attempts[player_id].spec_skill_tries() == a.spec_skill_tries().update(k, stored_tries)
                        && final(self)@.attempts[player_id].spec_magic_mana() == a.spec_magic_mana()
                        && final(self)@ == (WorldModel {
                            progressions: m.progressions.insert(player_id, final(self)@.progressions[player_id]),
                            attempts: m.attempts.insert(player_id, final(self)@.attempts[player_id]),
                            revision: bumped(m.revision),
                            ..m
                        })
                }
            }),
    {
        let mut progression = self.player_progression(player_id)?;
        let attempts = self.player_progression_attempts(player_id)?;
        let k = skill.code() as usize;
        let skill_changed = progression.skills.set(skill, progress);
        let tries_changed = attempts.skill_tries(skill) != stored_tries;
        if !skill_changed && !tries_changed {
            return Ok(false);
        }
        let updated = attempts.with_skill_tries(skill, stored_tries);
        self.player_progressions.insert(player_id, progression);
        self.player_progression_attempts.insert(player_id, updated);
        self.mark_changed();
        Ok(true)
    }

    /// Stores a magic-level advancement result; true (and the revision moves) when anything
    /// changed.
    pub fn store_magic_advance(&mut self, player_id: u64, magic_level: u8, stored_mana: u64) -> (r: Result<bool, CoreError>)
        ensures
            ({
                let m = old(self)@;
                if !m.attempts.contains_key(player_id) || !m.vitals.contains_key(player_id) {
                    r == Err::<bool, CoreError>(CoreError::UnknownPlayer(player_id)) && final(self)@ == m
                } else {
                    let v = m.vitals[player_id];
                    let a = m.attempts[player_id];
                    let changed = v.magic_level != magic_level || a.spec_magic_mana() != stored_mana;
                    &&& r == Ok::<bool, CoreError>(changed)
                    &&& !changed ==> final(self)@ == m
                    &&& changed ==> final(self)@.attempts.dom() == m.attempts.dom()
                        && final(self)@.attempts[player_id].spec_skill_tries() == a.spec_skill_tries()
                        && final(self)@.attempts[player_id].spec_magic_mana() == stored_mana
                        && final(self)@ == (WorldModel {
                            vitals: m.vitals.insert(player_id, PlayerVitals { magic_level, ..v }),
                            attempts: m.attempts.insert(player_id, final(self)@.attempts[player_id]),
                            revision: bumped(m.revision),
                            ..m
                        })
                }
            }),
    {
        let attempts = self.player_progression_attempts(player_id)?;
        let mut vitals = self.player_vitals(player_id)?;
        if vitals.magic_level == magic_level && attempts.magic_mana() == stored_mana {
            return Ok(false);
        }
        vitals.magic_level = magic_level;
        let updated = attempts.with_magic_mana(stored_mana);
        self.player_vitals.insert(player_id, vitals);
        self.player_progression_attempts.insert(player_id, updated);
        self.mark_changed();
        Ok(true)
    }

    /// Applies an award of skill tries, where `requirements[i]` is the total the skill's level
    /// `i + 1` above its current one requires. Advancement stops where the table ends; what is
    /// left of the award past the last level reached there is not stored.
    pub fn apply_player_skill_tries_with(&mut self, player_id: u64, skill: PlayerSkill, awarded_tries: u64,
        requirements: &Vec<u64>) -> (r: Result<PlayerSkillTryOutcome, CoreError>)
        ensures
            ({
                let m = old(self)@;
                if !m.progressions.contains_key(player_id) || !m.attempts.contains_key(player_id) {
                    r == Err::<PlayerSkillTryOutcome, CoreError>(CoreError::UnknownPlayer(player_id)) && final(self)@ == m
                } else {
                    let p = m.progressions[player_id];
                    let a = m.attempts[player_id];
                    let k = skill_code(skill) as int;
                    let (progress, stored, gained) = skill_advance(p.skills@[k], a.spec_skill_tries()[k], awarded_tries,
                        requirements@);
                    let changed = p.skills@[k] != progress || a.spec_skill_tries()[k] != stored;
                    &&& r == Ok::<PlayerSkillTryOutcome, CoreError>(PlayerSkillTryOutcome { player_id, skill,
                        gained_levels: gained, progress, stored_tries: stored })
                    &&& !changed ==> final(self)@ == m
                    &&& changed ==> final(self)@.progressions.dom() == m.progressions.dom()
                        && final(self)@.progressions[player_id].vocation == p.vocation
                        && final(self)@.progressions[player_id].skills@ == p.skills@.update(k, progress)
                        && final(self)@.attempts[player_id].spec_skill_tries() == a.spec_skill_tries().update(k, stored)
                        && final(self)@.attempts[player_id].spec_magic_mana() == a.spec_magic_mana()
                        && final(self)@ == (WorldModel {
                            progressions: m.progressions.insert(player_id, final(self)@.progressions[player_id]),
                            attempts: m.attempts.insert(player_id, final(self)@.attempts[player_id]),
                            revision: bumped(m.revision),
                            ..m
                        })
                }
            }),
    {
        let progression = self.player_progression(player_id)?;
        let attempts = self.player_progression_attempts(player_id)?;
        let current = progression.skills.skill(skill);
        let (level, stored, gained) = run_advance(current.level, u16::MAX, attempts.skill_tries(skill), awarded_tries,
            requirements);
        let kept = if level == u16::MAX { 0 } else { stored };
        let required = if (gained as usize) < requirements.len() { requirements[gained as usize] } else { 0 };
        let progress = SkillProgress { level, percent: progress_percent(kept, required) };
        self.store_skill_advance(player_id, skill, progress, kept)?;
        Ok(PlayerSkillTryOutcome { player_id, skill, gained_levels: gained, progress, stored_tries: kept })
    }

    /// Applies spent mana to magic-level advancement, where `requirements[i]` is the total the
    /// magic level `i + 1` above the current one requires. Advancement stops where the table
    /// ends; what is left of the award past the last level reached there is not stored.
    pub fn apply_player_magic_mana_with(&mut self, player_id: u64, awarded_mana: u64, requirements: &Vec<u64>)
        -> (r: Result<PlayerMagicAdvanceOutcome, CoreError>)
        ensures
            ({
                let m = old(self)@;
                if !m.attempts.contains_key(player_id) || !m.vitals.contains_key(player_id) {
                    r == Err::<PlayerMagicAdvanceOutcome, CoreError>(CoreError::UnknownPlayer(player_id)) && final(self)@ == m
                } else {
                    let v = m.vitals[player_id];
                    let a = m.attempts[player_id];
                    let (level, stored, gained) = magic_advance(v.magic_level, a.spec_magic_mana(), awarded_mana, requirements@);
                    let changed = v.magic_level != level || a.spec_magic_mana() != stored;
                    &&& r == Ok::<PlayerMagicAdvanceOutcome, CoreError>(PlayerMagicAdvanceOutcome { player_id,
                        gained_levels: gained, magic_level: level, stored_mana: stored })
                    &&& !changed ==> final(self)@ == m
                    &&& changed ==> final(self)@.attempts.dom() == m.attempts.dom()
                        && final(self)@.attempts[player_id].spec_skill_tries() == a.spec_skill_tries()
                        && final(self)@.attempts[player_id].spec_magic_mana() == stored
                        && final(self)@ == (WorldModel {
                            vitals: m.vitals.insert(player_id, PlayerVitals { magic_level: level, ..v }),
                            attempts: m.attempts.insert(player_id, final(self)@.attempts[player_id]),
                            revision: bumped(m.revision),
                            ..m
                        })
                }
            }),
    {
        let attempts = self.player_progression_attempts(player_id)?;
        let vitals = self.player_vitals(player_id)?;
        let (level, stored, gained) = run_advance(vitals.magic_level as u16, 255, attempts.magic_mana(), awarded_mana,
            requirements);
        let kept = if level == 255 { 0 } else { stored };
        let magic_level = level as u8;
        let gained_levels = gained as u8;
        self.store_magic_advance(player_id, magic_level, kept)?;
        Ok(PlayerMagicAdvanceOutcome { player_id, gained_levels, magic_level, stored_mana: kept })
    }

    /// Applies a fixed-percent death loss where the requirement tables are given:
    /// `skill_tables[k]` for the skill with code `k`, from the level above the minimum up, and
    /// `magic_table` from magic level one up. Each skill's and the magic level's cumulative
    /// progress loses `percent` of itself and the level is rebuilt from what is left.
    pub fn apply_fixed_percent_death_loss_from(&mut self, player_id: u64, percent: u8, skill_tables: &Vec<Vec<u64>>,
        magic_table: &Vec<u64>) -> (r: Result<PlayerDeathLossOutcome, CoreError>)
        ensures
            match death_loss_error(old(self)@, player_id, percent) {
                Some(e) => r == Err::<PlayerDeathLossOutcome, CoreError>(e) && final(self)@ == old(self)@,
                None => {
                    let m = old(self)@;
                    let skills = m.progressions[player_id].skills@;
                    let tries = m.attempts[player_id].spec_skill_tries();
                    let losses = Seq::new(7, |k: int| skill_loss(skills[k], tries[k], percent, table_of(skill_tables@, k)));
                    let magic = magic_loss(m.vitals[player_id].magic_level, m.attempts[player_id].spec_magic_mana(), percent,
                        magic_table@);
                    death_loss_done(m, final(self)@, player_id, percent, losses.map_values(|x: (SkillProgress, u64, u64)| x.0),
                        losses.map_values(|x: (SkillProgress, u64, u64)| x.1), losses.map_values(|x: (SkillProgress, u64, u64)| x.2),
                        magic.0, magic.1, magic.2, r)
                },
            },
    {
        if let Some(e) = self.death_loss_refusal(player_id, percent) {
            return Err(e);
        }
        let progression = self.player_progression(player_id)?;
        let attempts = self.player_progression_attempts(player_id)?;
        let vitals = self.player_vitals(player_id)?;
        let empty: Vec<u64> = Vec::new();
        let ghost skills_seq = progression.skills@;
        let ghost tries_seq = attempts.spec_skill_tries();
        let mut out: Vec<(SkillProgress, u64, u64)> = Vec::new();
        let mut k: usize = 0;
        proof { progression.skills.lemma_len(); }
        while k < 7
            invariant
                k <= 7,
                skills_seq == progression.skills@,
                skills_seq.len() == 7,
                tries_seq == attempts.spec_skill_tries(),
                empty@ == Seq::<u64>::empty(),
                out@.len() == k,
                forall|j: int| 0 <= j < k ==> out@[j] == skill_loss(skills_seq[j], tries_seq[j], percent,
                    table_of(skill_tables@, j)),
            decreases 7 - k,
        {
            let skill = PlayerSkill::ALL[k];
            proof { crate::progression::lemma_skill_code_roundtrip(skill, k as u8); }
            assert(skill_code(skill) == k);
            let table = if k < skill_tables.len() { &skill_tables[k] } else { &empty };
            let loss = skill_loss_of(progression.skills.skill(skill), attempts.skill_tries(skill), percent, table);
            out.push(loss);
            k = k + 1;
        }
        let skills = [out[0].0, out[1].0, out[2].0, out[3].0, out[4].0, out[5].0, out[6].0];
        let skill_tries = [out[0].1, out[1].1, out[2].1, out[3].1, out[4].1, out[5].1, out[6].1];
        let skill_tries_lost = [out[0].2, out[1].2, out[2].2, out[3].2, out[4].2, out[5].2, out[6].2];
        let (magic_level, magic_mana, magic_mana_lost) = magic_loss_of(vitals.magic_level, attempts.magic_mana(), percent,
            magic_table);
        proof {
            let losses = Seq::new(7, |j: int| skill_loss(skills_seq[j], tries_seq[j], percent, table_of(skill_tables@, j)));
            assert(skills@ =~= losses.map_values(|x: (SkillProgress, u64, u64)| x.0));
            assert(skill_tries@ =~= losses.map_values(|x: (SkillProgress, u64, u64)| x.1));
            assert(skill_tries_lost@ =~= losses.map_values(|x: (SkillProgress, u64, u64)| x.2));
        }
        self.apply_fixed_percent_death_loss_with(player_id, percent, skills, skill_tries, skill_tries_lost, magic_level,
            magic_mana, magic_mana_lost)
    }

    /// The refusal of a fixed-percent death loss, checked in order: the percent, the death
    /// state, the player and its progression records.
    pub fn death_loss_refusal(&self, player_id: u64, percent: u8) -> (r: Option<CoreError>)
        ensures
            r == death_loss_error(self@, player_id, percent),
    {
        if percent < 1 || percent > 100 {
            return Some(CoreError::InvalidFixedDeathLossPercent(percent));
        }
        let state = match self.player_respawn_state(player_id) {
            Ok(s) => s,
            Err(e) => { return Some(e); },
        };
        if !state.dead {
            return Some(CoreError::PlayerIsNotDead(player_id));
        }
        if state.loss_applied {
            return Some(CoreError::DeathLossAlreadyApplied(player_id));
        }
        if !self.players.contains_key(&player_id) || !self.player_progressions.contains_key(&player_id)
            || !self.player_progression_attempts.contains_key(&player_id) || !self.player_vitals.contains_key(&player_id) {
            return Some(CoreError::UnknownPlayer(player_id));
        }
        None
    }

    /// Applies a fixed-percent death loss: the experience loses `percent` of itself and the level
    /// follows it, the skills, tries, magic level and mana become the caller's rebuilt values, and
    /// the death state records that the loss was applied.
    pub fn apply_fixed_percent_death_loss_with(
        &mut self,
        player_id: u64,
        percent: u8,
        skills: [SkillProgress; 7],
        skill_tries: [u64; 7],
        skill_tries_lost: [u64; 7],
        magic_level: u8,
        magic_mana: u64,
        magic_mana_lost: u64,
    ) -> (r: Result<PlayerDeathLossOutcome, CoreError>)
        ensures
            match death_loss_error(old(self)@, player_id, percent) {
                Some(e) => r == Err::<PlayerDeathLossOutcome, CoreError>(e) && final(self)@ == old(self)@,
                None => death_loss_done(old(self)@, final(self)@, player_id, percent, skills@, skill_tries@, skill_tries_lost@,
                    magic_level, magic_mana, magic_mana_lost, r),
            },
    {
        if let Some(e) = self.death_loss_refusal(player_id, percent) {
            return Err(e);
        }
        let mut state = self.player_respawn_state(player_id)?;
        let mut player = self.players.get(&player_id).unwrap().duplicate();
        let mut progression = self.player_progression(player_id)?;
        let mut vitals = self.player_vitals(player_id)?;
        let experience_lost = fixed_percent_of(player.experience, percent);
        player.experience = player.experience.saturating_sub(experience_lost);
        player.level = level_for_experience(player.experience);
        let level = player.level;
        progression.skills = crate::progression::PlayerSkills::from_array(skills);
        let attempts = PlayerProgressionAttempts::new(skill_tries, magic_mana);
        vitals.magic_level = magic_level;
        state.loss_applied = true;
        self.players.insert(player_id, player);
        self.player_progressions.insert(player_id, progression);
        self.player_progression_attempts.insert(player_id, attempts);
        self.player_vitals.insert(player_id, vitals);
        self.player_respawn_states.insert(player_id, state);
        self.mark_changed();
        Ok(PlayerDeathLossOutcome {
            player_id,
            percent,
            experience_lost,
            skill_tries_lost,
            magic_mana_lost,
            level,
            progression,
            progression_attempts: attempts,
            vitals,
        })
    }
}

/// The outcome of an accepted fixed-percent death loss whose rebuilt skills, tries, losses, magic
/// level and mana are given: the experience loses `percent` of itself and the level follows it.
pub open spec fn death_loss_done(m: WorldModel, f: WorldModel, player_id: u64, percent: u8, skills: Seq<SkillProgress>,
    skill_tries: Seq<u64>, skill_tries_lost: Seq<u64>, magic_level: u8, magic_mana: u64, magic_mana_lost: u64,
    r: Result<PlayerDeathLossOutcome, CoreError>) -> bool
{
    let p = m.players[player_id];
    let lost = spec_fixed_percent_of(p.experience, percent);
    let experience: u64 = if p.experience >= lost { (p.experience - lost) as u64 } else { 0 };
    let o = r->Ok_0;
    &&& r is Ok
    &&& o.player_id == player_id && o.percent == percent && o.experience_lost == lost
    &&& level_of(o.level, experience)
    &&& o.skill_tries_lost@ == skill_tries_lost
    &&& o.magic_mana_lost == magic_mana_lost
    &&& o.progression.vocation == m.progressions[player_id].vocation
    &&& o.progression.skills@ == skills
    &&& o.progression_attempts.spec_skill_tries() == skill_tries
    &&& o.progression_attempts.spec_magic_mana() == magic_mana
    &&& o.vitals == PlayerVitals { magic_level, ..m.vitals[player_id] }
    &&& f == (WorldModel {
        players: m.players.insert(player_id, Player { experience, level: o.level, ..p }),
        progressions: m.progressions.insert(player_id, o.progression),
        attempts: m.attempts.insert(player_id, o.progression_attempts),
        vitals: m.vitals.insert(player_id, o.vitals),
        respawn_states: m.respawn_states.insert(player_id,
            PlayerRespawnState { loss_applied: true, ..m.respawn_states[player_id] }),
        revision: bumped(m.revision),
        ..m
    })
}

/// The total spent to reach a level `n` levels above the base one: `stored` plus the first `n`
/// requirements of the table (saturating; missing entries count as zero).
pub open spec fn cumulative(stored: u64, t: Seq<u64>, n: int) -> u64
    decreases n,
{
    if n <= 0 { stored } else { sat_add(cumulative(stored, t, n - 1), requirement_at(t, n - 1)) }
}

/// Rebuilding from `level` (at most `max`) by spending `total` on the table's requirements in
/// turn: the level reached and the amount left toward the next one (none at `max`). Rebuilding
/// stops where the table ends.
pub open spec fn rebuild_levels(level: int, max: int, total: u64, t: Seq<u64>, i: int) -> (int, u64)
    decreases t.len() - i,
{
    if level >= max {
        (level, 0)
    } else if i < 0 || i >= t.len() || total < t[i] {
        (level, total)
    } else {
        rebuild_levels(level + 1, max, (total - t[i]) as u64, t, i + 1)
    }
}

/// The loss of one skill: its rebuilt progress, the tries stored toward the next level, and the
/// tries lost, for a table of requirements from the level above the minimum up.
pub open spec fn skill_loss(progress: SkillProgress, stored: u64, percent: u8, t: Seq<u64>) -> (SkillProgress, u64, u64) {
    let total = cumulative(stored, t, progress.level - MINIMUM_PLAYER_SKILL_LEVEL);
    let lost = spec_fixed_percent_of(total, percent);
    let left: u64 = if total >= lost { (total - lost) as u64 } else { 0 };
    let (level, rest) = rebuild_levels(MINIMUM_PLAYER_SKILL_LEVEL as int, u16::MAX as int, left, t, 0);
    if level >= u16::MAX as int {
        (SkillProgress { level: u16::MAX, percent: 0 }, 0, lost)
    } else {
        (SkillProgress { level: level as u16, percent: spec_progress_percent(rest,
            requirement_at(t, level - MINIMUM_PLAYER_SKILL_LEVEL)) }, rest, lost)
    }
}

/// The loss of the magic level: the rebuilt level, the mana stored toward the next, and the mana
/// lost, for a table of requirements from magic level one up.
pub open spec fn magic_loss(level: u8, stored: u64, percent: u8, t: Seq<u64>) -> (u8, u64, u64) {
    let total = cumulative(stored, t, level as int);
    let lost = spec_fixed_percent_of(total, percent);
    let left: u64 = if total >= lost { (total - lost) as u64 } else { 0 };
    let (l, rest) = rebuild_levels(0, u8::MAX as int, left, t, 0);
    (l as u8, rest, lost)
}

/// The requirement table of skill code `k`, empty when none is given.
pub open spec fn table_of(tables: Seq<Vec<u64>>, k: int) -> Seq<u64> {
    if 0 <= k < tables.len() { tables[k]@ } else { Seq::empty() }
}

proof fn lemma_rebuild_bounds(level: int, max: int, total: u64, t: Seq<u64>, i: int)
    requires
        level <= max,
    ensures
        level <= rebuild_levels(level, max, total, t, i).0 <= max,
    decreases t.len() - i,
{
    if !(level >= max || i < 0 || i >= t.len() || total < t[i]) {
        lemma_rebuild_bounds(level + 1, max, (total - t[i]) as u64, t, i + 1);
    }
}

fn cumulative_of(stored: u64, t: &Vec<u64>, n: u16) -> (r: u64)
    ensures
        r == cumulative(stored, t@, n as int),
{
    let mut total = stored;
    let mut i: u16 = 0;
    while i < n
        invariant
            i <= n,
            total == cumulative(stored, t@, i as int),
        decreases n - i,
    {
        let req = if (i as usize) < t.len() { t[i as usize] } else { 0 };
        total = total.saturating_add(req);
        i = i + 1;
    }
    total
}

fn rebuild_of(level: u16, max: u16, total: u64, t: &Vec<u64>) -> (r: (u16, u64))
    requires
        level <= max,
    ensures
        level <= r.0 <= max,
        ({
            let b = rebuild_levels(level as int, max as int, total, t@, 0);
            r.0 == b.0 && r.1 == b.1
        }),
{
    let mut l = level;
    let mut left = total;
    let mut i: usize = 0;
    proof { lemma_rebuild_bounds(level as int, max as int, total, t@, 0); }
    while l < max && i < t.len() && left >= t[i]
        invariant
            level <= l <= max,
            i <= t@.len(),
            rebuild_levels(level as int, max as int, total, t@, 0) == rebuild_levels(l as int, max as int, left, t@, i as int),
        decreases t.len() - i,
    {
        proof { lemma_rebuild_bounds((l + 1) as int, max as int, (left - t[i as int]) as u64, t@, i + 1); }
        left = left - t[i];
        l = l + 1;
        i = i + 1;
    }
    if l >= max { (l, 0) } else { (l, left) }
}

fn skill_loss_of(progress: SkillProgress, stored: u64, percent: u8, t: &Vec<u64>) -> (r: (SkillProgress, u64, u64))
    ensures
        r == skill_loss(progress, stored, percent, t@),
{
    let n = if progress.level > MINIMUM_PLAYER_SKILL_LEVEL { progress.level - MINIMUM_PLAYER_SKILL_LEVEL } else { 0 };
    let total = cumulative_of(stored, t, n);
    let lost = fixed_percent_of(total, percent);
    let left = total.saturating_sub(lost);
    let (level, rest) = rebuild_of(MINIMUM_PLAYER_SKILL_LEVEL, u16::MAX, left, t);
    if level == u16::MAX {
        (SkillProgress { level: u16::MAX, percent: 0 }, 0, lost)
    } else {
        let k = (level - MINIMUM_PLAYER_SKILL_LEVEL) as usize;
        let req = if k < t.len() { t[k] } else { 0 };
        (SkillProgress { level, percent: progress_percent(rest, req) }, rest, lost)
    }
}

fn magic_loss_of(level: u8, stored: u64, percent: u8, t: &Vec<u64>) -> (r: (u8, u64, u64))
    ensures
        r == magic_loss(level, stored, percent, t@),
{
    let total = cumulative_of(stored, t, level as u16);
    let lost = fixed_percent_of(total, percent);
    let left = total.saturating_sub(lost);
    let (l, rest) = rebuild_of(0, 255, left, t);
    (l as u8, rest, lost)
}

/// Why a fixed-percent death loss is refused, if it is.
pub open spec fn death_loss_error(m: WorldModel, id: u64, percent: u8) -> Option<CoreError> {
    if percent < 1 || percent > 100 {
        Some(CoreError::InvalidFixedDeathLossPercent(percent))
    } else if !m.respawn_states.contains_key(id) {
        Some(CoreError::UnknownPlayer(id))
    } else if !m.respawn_states[id].dead {
        Some(CoreError::PlayerIsNotDead(id))
    } else if m.respawn_states[id].loss_applied {
        Some(CoreError::DeathLossAlreadyApplied(id))
    } else if !m.players.contains_key(id) || !m.progressions.contains_key(id) || !m.attempts.contains_key(id)
        || !m.vitals.contains_key(id) {
        Some(CoreError::UnknownPlayer(id))
    } else {
        None
    }
}

} // verus!
