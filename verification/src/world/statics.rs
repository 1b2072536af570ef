//! Static-creature installation, lifecycle, targeting, combat, movement and respawn on the
//! authoritative world.

use vstd::prelude::*;
use std::collections::{BTreeMap, BTreeSet};
use crate::error::CoreError;
use crate::geometry::{Position, CardinalDirection, position_key, spec_adjacent, spec_step, chebyshev, abs_diff_u16, diff};
use crate::progression::Player;
use crate::text::{is_blank, spec_is_blank, trim_text, trimmed, lowercase, lowercase_text};
use crate::keys::{map_keys, map_keys_u32, strictly_increasing, strictly_increasing_u32, sorted_u32, lemma_sorted_u32};
use crate::combat::{PlayerCombatCooldown, StaticCreatureDamageOutcome, StaticCreatureTargetAttackOutcome, mitigated};
use crate::progression::living_state;
use crate::world::combat::damage_result;
use crate::world::death::death_outcome;
use crate::map::{WorldMap, WorldMapView, walkable};
use crate::interaction::{PlayerInteractionIntent, empty_intent};
use crate::creatures::{
    FeTfsStaticEntity, StaticCreatureRuntime, StaticCreatureLifecycle, MAX_TFS_STATIC_SPAWNS,
    StaticCreatureSpawnArea, StaticCreatureResetSummary, area_contains, StaticCreatureTargetSelection,
    MAX_STATIC_CREATURE_TARGET_RANGE, StaticCreatureRuntimeSnapshot, StaticCreatureRuntimeRestoreSummary,
    StaticCreatureTargetStepOutcome, StaticCreatureMoveDecision, StaticCreatureDecisionBatch, StaticCreatureDecisionPolicy,
    StaticCreatureLootEntry, StaticCreatureLootRoll, StaticCreatureDirectMeleeDamageRange, LOOT_CHANCE_SCALE,
};
use crate::spawns::{FeTfsStaticSpawnCollection, SpawnCollectionView, ids_of, loot_view, copy_loot};
use crate::world::{WorldState, WorldModel, bumped};
use crate::world::lifecycle::position_taken;

verus! {

broadcast use {vstd::std_specs::btree::group_btree_axioms, vstd::laws_cmp::group_laws_cmp};

pub type Creatures = Map<u32, StaticCreatureRuntime>;

/// The position keys held by active static creatures.
pub open spec fn occupancy(cs: Creatures) -> Set<(u16, u16, u8)> {
    Set::new(|k: (u16, u16, u8)| exists|id: u32| cs.contains_key(id) && cs[id].active
        && #[trigger] position_key(cs[id].entity.position) == k)
}

/// The world after its static creatures become `cs`, with occupancy recomputed.
pub open spec fn with_creatures(m: WorldModel, cs: Creatures) -> WorldModel {
    WorldModel { static_creatures: cs, static_occupied: occupancy(cs), ..m }
}

/// Milliseconds rounded up to whole seconds-long ticks.
pub open spec fn cooldown_ticks(millis: u32) -> u64 {
    ((millis as int + 999) / 1000) as u64
}

/// The runtime that installation gives an entity of a collection at `tick`.
pub open spec fn installed_as(r: StaticCreatureRuntime, c: SpawnCollectionView, e: FeTfsStaticEntity, tick: u64) -> bool {
    let id = e.id;
    &&& r.entity == e
    &&& r.is_npc == c.npc_ids.contains(id)
    &&& r.experience_reward == (if c.experience_rewards.contains_key(id) { c.experience_rewards[id] } else { 0 })
    &&& r.loot@ == (if c.loot_tables.contains_key(id) { c.loot_tables[id] } else { Seq::empty() })
    &&& r.spawn_position == e.position
    &&& r.monster_spawn_area == (if c.spawn_areas.contains_key(id) { Some(c.spawn_areas[id]) } else { None })
    &&& r.active
    &&& r.health_percent == e.health_percent
    &&& r.activated_at_tick == tick
    &&& r.inactive_since_tick is None
    &&& r.reactivation_due_tick is None
    &&& r.respawn_interval_seconds == (if c.respawn_intervals.contains_key(id) { c.respawn_intervals[id] } else { 0 })
    &&& r.melee_cooldown_ticks == (if c.melee_intervals.contains_key(id) {
            Some(cooldown_ticks(c.melee_intervals[id])) } else { None })
    &&& r.next_melee_due_tick == tick
    &&& r.direct_melee_damage_range == (if c.damage_ranges.contains_key(id) { Some(c.damage_ranges[id]) } else { None })
    &&& r.direct_melee_damage_sequence == 0
    &&& r.target_player_id is None
}

/// The first entity that installation refuses: a blank name, an identifier that an earlier entity
/// holds, or a position a player stands on.
pub open spec fn install_error(es: Seq<FeTfsStaticEntity>, players: Map<u64, Player>) -> Option<CoreError>
    decreases es.len(),
{
    if es.len() == 0 {
        None
    } else {
        match install_error(es.drop_last(), players) {
            Some(e) => Some(e),
            None => {
                let e = es.last();
                if spec_is_blank(e.name@) {
                    Some(CoreError::EmptyStaticSpawnName)
                } else if ids_of(es.drop_last()).contains(e.id) {
                    Some(CoreError::DuplicateStaticSpawnId(e.id))
                } else if position_taken(players, e.position) {
                    Some(CoreError::PlayerOccupiesStaticCreaturePosition(e.position))
                } else {
                    None
                }
            },
        }
    }
}

/// The installed table: one runtime per entity identifier.
pub open spec fn installed_table(cs: Creatures, c: SpawnCollectionView, tick: u64) -> bool {
    &&& cs.dom() == ids_of(c.entities)
    &&& forall|i: int| 0 <= i < c.entities.len() ==> installed_as(#[trigger] cs[c.entities[i].id], c, c.entities[i], tick)
}

proof fn lemma_install_error_prefix(es: Seq<FeTfsStaticEntity>, players: Map<u64, Player>, n: int)
    requires
        0 <= n <= es.len(),
        install_error(es.take(n), players) is Some,
    ensures
        install_error(es, players) == install_error(es.take(n), players),
    decreases es.len() - n,
{
    if n < es.len() {
        assert(es.take(n + 1).drop_last() =~= es.take(n));
        lemma_install_error_prefix(es, players, n + 1);
    } else {
        assert(es.take(n) =~= es);
    }
}

impl WorldState {
    /// Recomputes the positions held by active static creatures.
    fn refresh_static_creature_occupancy(&mut self)
        ensures
            final(self)@ == with_creatures(old(self)@, old(self)@.static_creatures),
    {
        let ids = map_keys_u32(&self.static_creatures);
        let mut out: BTreeSet<(u16, u16, u8)> = BTreeSet::new();
        let ghost cs = self@.static_creatures;
        let mut i: usize = 0;
        while i < ids.len()
            invariant
                i <= ids@.len(),
                cs == self@.static_creatures,
                forall|j: int| 0 <= j < ids@.len() ==> cs.contains_key(#[trigger] ids@[j]),
                forall|k: u32| #[trigger] cs.contains_key(k) ==> ids@.contains(k),
                forall|k: (u16, u16, u8)| #[trigger] out@.contains(k) <==> exists|j: int| 0 <= j < i
                    && cs[ids@[j]].active && #[trigger] position_key(cs[ids@[j]].entity.position) == k,
            decreases ids.len() - i,
        {
            let id = ids[i];
            let runtime = self.static_creatures.get(&id).unwrap();
            if runtime.active {
                out.insert(runtime.entity.position.key());
            }
            proof {
                assert forall|k: (u16, u16, u8)| #[trigger] out@.contains(k) <==> exists|j: int| 0 <= j < i + 1
                    && cs[ids@[j]].active && #[trigger] position_key(cs[ids@[j]].entity.position) == k by {
                    if exists|j: int| 0 <= j < i + 1 && cs[ids@[j]].active && #[trigger] position_key(cs[ids@[j]].entity.position) == k {
                        let j = choose|j: int| 0 <= j < i + 1 && cs[ids@[j]].active && #[trigger] position_key(cs[ids@[j]].entity.position) == k;
                        if j < i {
                            assert(exists|q: int| 0 <= q < i && cs[ids@[q]].active && #[trigger] position_key(cs[ids@[q]].entity.position) == k);
                        }
                    }
                }
            }
            i = i + 1;
        }
        proof {
            assert forall|k: (u16, u16, u8)| #[trigger] out@.contains(k) <==> occupancy(cs).contains(k) by {
                if occupancy(cs).contains(k) {
                    let id = choose|id: u32| cs.contains_key(id) && cs[id].active && #[trigger] position_key(cs[id].entity.position) == k;
                    let j = choose|j: int| 0 <= j < ids@.len() && ids@[j] == id;
                    assert(position_key(cs[ids@[j]].entity.position) == k);
                }
                if out@.contains(k) {
                    let j = choose|j: int| 0 <= j < ids@.len() && cs[ids@[j]].active && #[trigger] position_key(cs[ids@[j]].entity.position) == k;
                    assert(cs.contains_key(ids@[j]));
                }
            }
            assert(out@ =~= occupancy(cs));
        }
        self.static_occupied_positions = out;
    }

    /// The runtime that installation gives one entity.
    fn installed_runtime(&self, collection: &FeTfsStaticSpawnCollection, entity: &FeTfsStaticEntity)
        -> (r: StaticCreatureRuntime)
        ensures
            installed_as(r, collection@, *entity, self@.tick),
    {
        let id = entity.id;
        let melee = match collection.direct_melee_interval_millis(id) {
            Some(interval) => {
                let v: u64 = interval as u64;
                Some((v + 999) / 1000)
            },
            None => None,
        };
        StaticCreatureRuntime {
            entity: entity.duplicate(),
            is_npc: collection.is_npc(id),
            experience_reward: collection.experience_reward(id),
            loot: collection.loot_table(id),
            spawn_position: entity.position,
            monster_spawn_area: collection.monster_spawn_area(id),
            active: true,
            health_percent: entity.health_percent,
            activated_at_tick: self.tick,
            inactive_since_tick: None,
            reactivation_due_tick: None,
            respawn_interval_seconds: collection.respawn_interval_seconds(id),
            melee_cooldown_ticks: melee,
            next_melee_due_tick: self.tick,
            direct_melee_damage_range: collection.direct_melee_damage_range(id),
            direct_melee_damage_sequence: 0,
            target_player_id: None,
        }
    }

    /// Replaces every static creature with the entities of a collection, all active at their
    /// spawn positions. Refused without change when the collection is too large, an entity has a
    /// blank name or a repeated identifier, or a player stands on an entity's position.
    pub fn install_static_creatures(&mut self, collection: &FeTfsStaticSpawnCollection) -> (r: Result<(), CoreError>)
        ensures
            creatures_sound(old(self)@) && (forall|j: int| 0 <= j < collection@.entities.len()
                ==> (#[trigger] collection@.entities[j]).health_percent <= 100) ==> creatures_sound(final(self)@),
            r is Err ==> final(self)@ == old(self)@,
            collection@.entities.len() > MAX_TFS_STATIC_SPAWNS
                ==> r == Err::<(), CoreError>(CoreError::StaticSpawnLimit(MAX_TFS_STATIC_SPAWNS)),
            collection@.entities.len() <= MAX_TFS_STATIC_SPAWNS && install_error(collection@.entities, old(self)@.players) is Some
                ==> r == Err::<(), CoreError>(install_error(collection@.entities, old(self)@.players)->0),
            collection@.entities.len() <= MAX_TFS_STATIC_SPAWNS && install_error(collection@.entities, old(self)@.players) is None
                ==> r is Ok && installed_table(final(self)@.static_creatures, collection@, old(self)@.tick)
                    && final(self)@ == (WorldModel { revision: bumped(old(self)@.revision),
                        ..with_creatures(old(self)@, final(self)@.static_creatures) }),
    {
        if collection.entities.len() > MAX_TFS_STATIC_SPAWNS {
            return Err(CoreError::StaticSpawnLimit(MAX_TFS_STATIC_SPAWNS));
        }
        let ghost es = collection@.entities;
        let mut creatures: BTreeMap<u32, StaticCreatureRuntime> = BTreeMap::new();
        let mut i: usize = 0;
        proof { assert(ids_of(es.take(0)) =~= Set::<u32>::empty()); }
        while i < collection.entities.len()
            invariant
                i <= es.len(),
                es == collection@.entities,
                es.len() <= MAX_TFS_STATIC_SPAWNS,
                install_error(es.take(i as int), self@.players) is None,
                creatures@.dom() == ids_of(es.take(i as int)),
                forall|j: int| 0 <= j < i ==> installed_as(#[trigger] creatures@[es[j].id], collection@, es[j], self@.tick),
            decreases es.len() - i,
        {
            let entity = &collection.entities[i];
            proof { assert(es.take(i + 1).drop_last() =~= es.take(i as int)); }
            if is_blank(entity.name.as_str()) {
                proof { lemma_install_error_prefix(es, self@.players, i + 1); }
                return Err(CoreError::EmptyStaticSpawnName);
            }
            if creatures.contains_key(&entity.id) {
                proof { lemma_install_error_prefix(es, self@.players, i + 1); }
                return Err(CoreError::DuplicateStaticSpawnId(entity.id));
            }
            if self.is_player_occupied(entity.position) {
                proof { lemma_install_error_prefix(es, self@.players, i + 1); }
                return Err(CoreError::PlayerOccupiesStaticCreaturePosition(entity.position));
            }
            let runtime = self.installed_runtime(collection, entity);
            let ghost before = creatures@;
            creatures.insert(entity.id, runtime);
            proof {
                let p = es.take(i as int);
                let q = es.take(i + 1);
                assert forall|id: u32| ids_of(q).contains(id) <==> ids_of(p).insert(es[i as int].id).contains(id) by {
                    if ids_of(q).contains(id) {
                        let j = choose|j: int| 0 <= j < q.len() && #[trigger] q[j].id == id;
                        if j < i { assert(p[j].id == id); }
                    }
                    if ids_of(p).contains(id) {
                        let j = choose|j: int| 0 <= j < p.len() && #[trigger] p[j].id == id;
                        assert(q[j].id == id);
                    }
                    if id == es[i as int].id { assert(q[i as int].id == id); }
                }
                assert(creatures@.dom() =~= ids_of(q));
                assert forall|j: int| 0 <= j < i + 1 implies installed_as(#[trigger] creatures@[es[j].id], collection@, es[j], self@.tick) by {
                    if j < i {
                        assert(p[j].id == es[j].id);
                        assert(ids_of(p).contains(es[j].id));
                        assert(es[j].id != es[i as int].id);
                    }
                }
            }
            i = i + 1;
        }
        proof {
            assert(es.take(es.len() as int) =~= es);
        }
        self.static_creatures = creatures;
        self.refresh_static_creature_occupancy();
        self.mark_changed();
        proof {
            if forall|j: int| 0 <= j < es.len() ==> (#[trigger] es[j]).health_percent <= 100 {
                assert forall|id: u32| #[trigger] self@.static_creatures.contains_key(id)
                    implies creature_sound(self@.static_creatures[id], self@.tick) by {
                    assert(ids_of(es).contains(id));
                    let j = choose|j: int| 0 <= j < es.len() && #[trigger] es[j].id == id;
                    assert(installed_as(creatures@[es[j].id], collection@, es[j], self@.tick));
                }
            }
        }
        Ok(())
    }

    pub fn static_creature_count(&self) -> (r: usize)
        ensures
            r == self@.static_creatures.len(),
    {
        self.static_creatures.len()
    }

    /// The entity of an installed static creature.
    pub fn static_creature(&self, id: u32) -> (r: Option<&FeTfsStaticEntity>)
        ensures
            match r {
                Some(e) => self@.static_creatures.contains_key(id) && *e == self@.static_creatures[id].entity,
                None => !self@.static_creatures.contains_key(id),
            },
    {
        match self.static_creatures.get(&id) {
            Some(runtime) => Some(&runtime.entity),
            None => None,
        }
    }

    /// The lifecycle record of an installed static creature.
    pub fn static_creature_lifecycle(&self, id: u32) -> (r: Option<StaticCreatureLifecycle>)
        ensures
            match r {
                Some(l) => self@.static_creatures.contains_key(id) && ({
                    let c = self@.static_creatures[id];
                    l == StaticCreatureLifecycle {
                        id,
                        spawn_position: c.spawn_position,
                        position: c.entity.position,
                        active: c.active,
                        health_percent: c.health_percent,
                        activated_at_tick: c.activated_at_tick,
                        inactive_since_tick: c.inactive_since_tick,
                        reactivation_due_tick: c.reactivation_due_tick,
                        respawn_interval_seconds: c.respawn_interval_seconds,
                    }
                }),
                None => !self@.static_creatures.contains_key(id),
            },
    {
        match self.static_creatures.get(&id) {
            Some(c) => Some(StaticCreatureLifecycle {
                id,
                spawn_position: c.spawn_position,
                position: c.entity.position,
                active: c.active,
                health_percent: c.health_percent,
                activated_at_tick: c.activated_at_tick,
                inactive_since_tick: c.inactive_since_tick,
                reactivation_due_tick: c.reactivation_due_tick,
                respawn_interval_seconds: c.respawn_interval_seconds,
            }),
            None => None,
        }
    }
}


/// The active creatures' identifiers.
pub open spec fn active_ids(cs: Creatures) -> Set<u32> {
    cs.dom().filter(|id: u32| cs[id].active)
}

/// The next value of a declared damage range, cycling by the creature's hit sequence; `None`
/// without a declared ordered range.
pub open spec fn declared_damage(c: StaticCreatureRuntime) -> Option<u16> {
    match c.direct_melee_damage_range {
        Some(rg) => if rg.min_damage <= rg.max_damage {
            Some((rg.min_damage + (c.direct_melee_damage_sequence as int) % (rg.max_damage - rg.min_damage + 1)) as u16)
        } else {
            None
        },
        None => None,
    }
}

/// An intent with its static target on creature `id` cleared.
pub open spec fn without_creature_target(i: PlayerInteractionIntent, id: u32) -> PlayerInteractionIntent {
    PlayerInteractionIntent {
        target_static_creature_id: if i.target_static_creature_id == Some(id) { None } else { i.target_static_creature_id },
        ..i
    }
}

/// Intents with static targets on creature `id` cleared; intents left empty are dropped.
pub open spec fn intents_untargeting_creature(m: Map<u64, PlayerInteractionIntent>, id: u32) -> Map<u64, PlayerInteractionIntent> {
    Map::new(|k: u64| m.contains_key(k) && without_creature_target(m[k], id) != empty_intent(),
        |k: u64| without_creature_target(m[k], id))
}

/// The creature after deactivation at `tick`.
pub open spec fn deactivated(c: StaticCreatureRuntime, tick: u64) -> StaticCreatureRuntime {
    if c.active {
        StaticCreatureRuntime {
            active: false,
            target_player_id: None,
            inactive_since_tick: Some(tick),
            reactivation_due_tick: if c.respawn_interval_seconds > 0 {
                Some(sat_add(tick, c.respawn_interval_seconds as u64)) } else { None },
            ..c
        }
    } else {
        StaticCreatureRuntime { active: false, target_player_id: None, ..c }
    }
}

pub open spec fn sat_add(a: u64, b: u64) -> u64 {
    if a + b > u64::MAX { u64::MAX } else { (a + b) as u64 }
}

/// The world after creature `id` is deactivated.
pub open spec fn after_deactivation(m: WorldModel, id: u32) -> WorldModel {
    let c = m.static_creatures[id];
    let cs = m.static_creatures.insert(id, deactivated(c, m.tick));
    if c.active {
        WorldModel {
            interactions: intents_untargeting_creature(m.interactions, id),
            revision: bumped(m.revision),
            ..with_creatures(m, cs)
        }
    } else {
        with_creatures(m, cs)
    }
}

impl WorldState {
    /// Stores a changed creature without touching occupancy.
    fn put_creature(&mut self, id: u32, runtime: StaticCreatureRuntime)
        ensures
            final(self)@ == (WorldModel { static_creatures: old(self)@.static_creatures.insert(id, runtime), ..old(self)@ }),
    {
        self.static_creatures.insert(id, runtime);
    }

    /// Takes a creature out of the table to change it.
    fn take_creature(&mut self, id: u32) -> (r: StaticCreatureRuntime)
        requires
            old(self)@.static_creatures.contains_key(id),
        ensures
            r == old(self)@.static_creatures[id],
            final(self)@ == (WorldModel { static_creatures: old(self)@.static_creatures.remove(id), ..old(self)@ }),
    {
        self.static_creatures.remove(&id).unwrap()
    }

    /// The number of active static creatures.
    pub fn active_static_creature_count(&self) -> (r: usize)
        ensures
            r == active_ids(self@.static_creatures).len(),
    {
        let ghost cs = self@.static_creatures;
        let ids = map_keys_u32(&self.static_creatures);
        let mut n: usize = 0;
        let mut i: usize = 0;
        let ghost mut seen: Set<u32> = Set::empty();
        while i < ids.len()
            invariant
                i <= ids@.len(),
                cs == self@.static_creatures,
                strictly_increasing_u32(ids@),
                forall|j: int| 0 <= j < ids@.len() ==> cs.contains_key(#[trigger] ids@[j]),
                forall|k: u32| #[trigger] cs.contains_key(k) ==> ids@.contains(k),
                seen.finite(),
                n == seen.len(),
                n <= i,
                forall|k: u32| #[trigger] seen.contains(k) <==> (ids@.take(i as int).contains(k) && cs[k].active),
            decreases ids.len() - i,
        {
            let k = ids[i];
            proof {
                assert(ids@.take(i + 1) =~= ids@.take(i as int).push(k));
                let t1 = ids@.take(i + 1);
                let t0 = ids@.take(i as int);
                assert forall|x: u32| t1.contains(x) <==> (t0.contains(x) || x == k) by {
                    if t1.contains(x) {
                        let q = choose|q: int| 0 <= q < t1.len() && t1[q] == x;
                        if q < i { assert(t0[q] == x); }
                    }
                    if t0.contains(x) {
                        let q = choose|q: int| 0 <= q < t0.len() && t0[q] == x;
                        assert(t1[q] == x);
                    }
                    if x == k { assert(t1[i as int] == x); }
                }
                assert(!ids@.take(i as int).contains(k)) by {
                    if ids@.take(i as int).contains(k) {
                        let q = choose|q: int| 0 <= q < i && ids@.take(i as int)[q] == k;
                        assert(ids@[q] < ids@[i as int]);
                    }
                }
            }
            if self.static_creatures.get(&k).unwrap().active {
                proof { seen = seen.insert(k); }
                n = n + 1;
            }
            i = i + 1;
        }
        proof {
            assert(ids@.take(ids@.len() as int) =~= ids@);
            assert(seen =~= active_ids(cs));
        }
        n
    }

    pub fn static_creature_health_percent(&self, id: u32) -> (r: Result<u8, CoreError>)
        ensures
            r == (if self@.static_creatures.contains_key(id) { Ok::<u8, CoreError>(self@.static_creatures[id].health_percent) }
                else { Err(CoreError::UnknownStaticCreature(id)) }),
    {
        match self.static_creatures.get(&id) {
            Some(c) => Ok(c.health_percent),
            None => Err(CoreError::UnknownStaticCreature(id)),
        }
    }

    pub fn static_creature_experience_reward(&self, id: u32) -> (r: Result<u64, CoreError>)
        ensures
            r == (if self@.static_creatures.contains_key(id) { Ok::<u64, CoreError>(self@.static_creatures[id].experience_reward) }
                else { Err(CoreError::UnknownStaticCreature(id)) }),
    {
        match self.static_creatures.get(&id) {
            Some(c) => Ok(c.experience_reward),
            None => Err(CoreError::UnknownStaticCreature(id)),
        }
    }

    /// Changes one active creature's display health only; true when it changed.
    pub fn set_static_creature_health_percent(&mut self, id: u32, health_percent: u8) -> (r: Result<bool, CoreError>)
        ensures
            creatures_sound(old(self)@) ==> creatures_sound(final(self)@),
            ({
                let m = old(self)@;
                if health_percent > 100 {
                    r == Err::<bool, CoreError>(CoreError::InvalidStaticCreatureHealthPercent(health_percent))
                        && final(self)@ == m
                } else if !m.static_creatures.contains_key(id) {
                    r == Err::<bool, CoreError>(CoreError::UnknownStaticCreature(id)) && final(self)@ == m
                } else if !m.static_creatures[id].active {
                    r == Err::<bool, CoreError>(CoreError::InactiveStaticCreature(id)) && final(self)@ == m
                } else if m.static_creatures[id].health_percent == health_percent {
                    r == Ok::<bool, CoreError>(false) && final(self)@ == m
                } else {
                    r == Ok::<bool, CoreError>(true) && final(self)@ == (WorldModel {
                        static_creatures: m.static_creatures.insert(id,
                            StaticCreatureRuntime { health_percent, ..m.static_creatures[id] }),
                        revision: bumped(m.revision),
                        ..m
                    })
                }
            }),
    {
        if health_percent > 100 {
            return Err(CoreError::InvalidStaticCreatureHealthPercent(health_percent));
        }
        match self.static_creatures.get(&id) {
            None => { return Err(CoreError::UnknownStaticCreature(id)); },
            Some(c) => {
                if !c.active {
                    return Err(CoreError::InactiveStaticCreature(id));
                }
                if c.health_percent == health_percent {
                    return Ok(false);
                }
            },
        }
        let mut runtime = self.take_creature(id);
        runtime.health_percent = health_percent;
        self.put_creature(id, runtime);
        proof { assert(self@.static_creatures =~= old(self)@.static_creatures.insert(id, runtime)); }
        self.mark_changed();
        Ok(true)
    }

    /// The player an active creature targets.
    pub fn static_creature_target(&self, creature_id: u32) -> (r: Result<Option<u64>, CoreError>)
        ensures
            r == (if !self@.static_creatures.contains_key(creature_id) {
                Err::<Option<u64>, CoreError>(CoreError::UnknownStaticCreature(creature_id))
            } else if !self@.static_creatures[creature_id].active {
                Err(CoreError::InactiveStaticCreature(creature_id))
            } else {
                Ok(self@.static_creatures[creature_id].target_player_id)
            }),
    {
        match self.static_creatures.get(&creature_id) {
            None => Err(CoreError::UnknownStaticCreature(creature_id)),
            Some(c) => if !c.active { Err(CoreError::InactiveStaticCreature(creature_id)) } else { Ok(c.target_player_id) },
        }
    }

    /// Clears a creature's target; the revision moves only when a target was cleared.
    fn clear_static_creature_target(&mut self, creature_id: u32)
        requires
            old(self)@.static_creatures.contains_key(creature_id),
        ensures
            ({
                let m = old(self)@;
                let c = m.static_creatures[creature_id];
                if c.target_player_id is Some {
                    final(self)@ == (WorldModel {
                        static_creatures: m.static_creatures.insert(creature_id, StaticCreatureRuntime { target_player_id: None, ..c }),
                        revision: bumped(m.revision),
                        ..m
                    })
                } else {
                    final(self)@ == m
                }
            }),
    {
        if self.static_creatures.get(&creature_id).unwrap().target_player_id.is_some() {
            let mut runtime = self.take_creature(creature_id);
            runtime.target_player_id = None;
            self.put_creature(creature_id, runtime);
            proof { assert(self@.static_creatures =~= old(self)@.static_creatures.insert(creature_id, runtime)); }
            self.mark_changed();
        }
    }

    /// Whether a creature declares a direct-melee damage range.
    pub fn static_creature_declares_direct_melee(&self, id: u32) -> (r: bool)
        ensures
            r == (self@.static_creatures.contains_key(id) && self@.static_creatures[id].direct_melee_damage_range is Some),
    {
        match self.static_creatures.get(&id) {
            Some(c) => c.direct_melee_damage_range.is_some(),
            None => false,
        }
    }

    /// The next declared damage value of a creature, without advancing its sequence.
    pub fn static_creature_declared_damage_for_next_hit(&self, id: u32) -> (r: Option<u16>)
        ensures
            r == (if self@.static_creatures.contains_key(id) { declared_damage(self@.static_creatures[id]) } else { None }),
    {
        match self.static_creatures.get(&id) {
            Some(c) => next_declared_damage(c),
            None => None,
        }
    }

    /// Clears static targets on creature `id` from every intent, dropping intents left empty.
    fn untarget_creature_in_intents(&mut self, id: u32)
        ensures
            final(self)@ == (WorldModel { interactions: intents_untargeting_creature(old(self)@.interactions, id), ..old(self)@ }),
    {
        let ghost m = self@.interactions;
        let keys = map_keys(&self.player_interactions);
        let mut out: BTreeMap<u64, PlayerInteractionIntent> = BTreeMap::new();
        let mut i: usize = 0;
        proof {
            assert(out@ =~= Map::new(|k: u64| keys@.take(0).contains(k) && m.contains_key(k)
                && without_creature_target(m[k], id) != empty_intent(), |k: u64| without_creature_target(m[k], id)));
        }
        while i < keys.len()
            invariant
                i <= keys@.len(),
                m == self@.interactions,
                forall|j: int| 0 <= j < keys@.len() ==> m.contains_key(#[trigger] keys@[j]),
                forall|k: u64| #[trigger] m.contains_key(k) ==> keys@.contains(k),
                out@ == Map::new(|k: u64| keys@.take(i as int).contains(k) && m.contains_key(k)
                    && without_creature_target(m[k], id) != empty_intent(), |k: u64| without_creature_target(m[k], id)),
            decreases keys.len() - i,
        {
            let k = keys[i];
            let it = *self.player_interactions.get(&k).unwrap();
            let u = PlayerInteractionIntent {
                target_static_creature_id: if it.target_static_creature_id == Some(id) { None } else { it.target_static_creature_id },
                ..it
            };
            let ghost before = out@;
            if !u.is_empty() {
                out.insert(k, u);
            }
            proof {
                assert(keys@.take(i + 1) =~= keys@.take(i as int).push(k));
                let t1 = keys@.take(i + 1);
                let t0 = keys@.take(i as int);
                assert forall|x: u64| t1.contains(x) <==> (t0.contains(x) || x == k) by {
                    if t1.contains(x) {
                        let q = choose|q: int| 0 <= q < t1.len() && t1[q] == x;
                        if q < i { assert(t0[q] == x); }
                    }
                    if t0.contains(x) {
                        let q = choose|q: int| 0 <= q < t0.len() && t0[q] == x;
                        assert(t1[q] == x);
                    }
                    if x == k { assert(t1[i as int] == x); }
                }
                assert(u == without_creature_target(m[k], id));
                assert(out@ =~= Map::new(|x: u64| keys@.take(i + 1).contains(x) && m.contains_key(x)
                    && without_creature_target(m[x], id) != empty_intent(), |x: u64| without_creature_target(m[x], id)));
            }
            i = i + 1;
        }
        proof {
            assert(keys@.take(keys@.len() as int) =~= keys@);
            assert(out@ =~= intents_untargeting_creature(m, id));
        }
        self.player_interactions = out;
    }

    /// Marks a creature inactive without moving it; true when it was active.
    pub fn deactivate_static_creature(&mut self, id: u32) -> (r: Result<bool, CoreError>)
        ensures
            creatures_sound(old(self)@) ==> creatures_sound(final(self)@),
            !old(self)@.static_creatures.contains_key(id) ==> r == Err::<bool, CoreError>(CoreError::UnknownStaticCreature(id))
                && final(self)@ == old(self)@,
            old(self)@.static_creatures.contains_key(id) ==> r == Ok::<bool, CoreError>(old(self)@.static_creatures[id].active)
                && final(self)@ == after_deactivation(old(self)@, id),
    {
        if !self.static_creatures.contains_key(&id) {
            return Err(CoreError::UnknownStaticCreature(id));
        }
        let ghost m = self@;
        let tick = self.tick;
        let mut runtime = self.take_creature(id);
        let changed = runtime.active;
        runtime.active = false;
        runtime.target_player_id = None;
        if changed {
            runtime.inactive_since_tick = Some(tick);
            runtime.reactivation_due_tick = if runtime.respawn_interval_seconds > 0 {
                Some(tick.saturating_add(runtime.respawn_interval_seconds as u64))
            } else {
                None
            };
        }
        self.put_creature(id, runtime);
        proof { assert(self@.static_creatures =~= m.static_creatures.insert(id, deactivated(m.static_creatures[id], m.tick))); }
        if changed {
            self.untarget_creature_in_intents(id);
        }
        self.refresh_static_creature_occupancy();
        if changed {
            self.mark_changed();
        }
        Ok(changed)
    }
}

/// The next declared damage value of one creature.
fn next_declared_damage(c: &StaticCreatureRuntime) -> (r: Option<u16>)
    ensures
        r == declared_damage(*c),
{
    match c.direct_melee_damage_range {
        Some(rg) => {
            if rg.min_damage > rg.max_damage {
                return None;
            }
            let span: u64 = rg.max_damage as u64 - rg.min_damage as u64 + 1;
            let offset: u64 = c.direct_melee_damage_sequence % span;
            Some((rg.min_damage as u64 + offset) as u16)
        },
        None => None,
    }
}


/// Another active creature than `id` stands on `p`.
pub open spec fn creature_blocks(cs: Creatures, id: u32, p: Position) -> bool {
    exists|k: u32| cs.contains_key(k) && k != id && cs[k].active && #[trigger] cs[k].entity.position == p
}

/// The world after an attack on a creature removed `applied` health percentage points.
pub open spec fn after_creature_hit(m: WorldModel, attacker_id: u64, target_id: u32, applied: u8) -> WorldModel {
    let c = m.static_creatures[target_id];
    let c2 = StaticCreatureRuntime { health_percent: (c.health_percent - applied) as u8, ..c };
    let m1 = WorldModel {
        static_creatures: m.static_creatures.insert(target_id, c2),
        combat_cooldowns: m.combat_cooldowns.insert(attacker_id, PlayerCombatCooldown { next_attack_tick: sat_add(m.tick, 1) }),
        ..m
    };
    if c2.health_percent == 0 { after_deactivation(m1, target_id) } else { WorldModel { revision: bumped(m1.revision), ..m1 } }
}

/// A creature reactivated at its spawn position with its imported health.
pub open spec fn reactivated(c: StaticCreatureRuntime, tick: u64) -> StaticCreatureRuntime {
    StaticCreatureRuntime {
        entity: FeTfsStaticEntity { position: c.spawn_position, ..c.entity },
        health_percent: c.entity.health_percent,
        active: true,
        activated_at_tick: tick,
        inactive_since_tick: None,
        reactivation_due_tick: None,
        ..c
    }
}

/// Creatures, taken positions, and (reactivated, deferred by a player, deferred by a creature).
pub type ResetState = (Creatures, Set<(u16, u16, u8)>, (int, int, int));

/// One creature's turn of an unconditional reset.
pub open spec fn reset_one(st: ResetState, id: u32, players: Map<u64, Player>, tick: u64) -> ResetState {
    let (cs, occ, (r, dp, ds)) = st;
    let c = cs[id];
    if c.active {
        st
    } else if position_taken(players, c.spawn_position) {
        (cs, occ, (r, dp + 1, ds))
    } else if occ.contains(position_key(c.spawn_position)) {
        (cs, occ, (r, dp, ds + 1))
    } else {
        (cs.insert(id, reactivated(c, tick)), occ.insert(position_key(c.spawn_position)), (r + 1, dp, ds))
    }
}

/// Resetting the creatures `ids` in order.
pub open spec fn reset_run(st: ResetState, ids: Seq<u32>, players: Map<u64, Player>, tick: u64) -> ResetState
    decreases ids.len(),
{
    if ids.len() == 0 { st } else { reset_one(reset_run(st, ids.drop_last(), players, tick), ids.last(), players, tick) }
}

/// Some player stands inside a spawn area.
pub open spec fn player_in_area(players: Map<u64, Player>, area: StaticCreatureSpawnArea) -> bool {
    exists|p: u64| players.contains_key(p) && area_contains(area, #[trigger] players[p].position)
}

/// One creature's turn of a due reactivation.
pub open spec fn reactivate_one(st: ResetState, id: u32, players: Map<u64, Player>, tick: u64) -> ResetState {
    let (cs, occ, (r, dp, ds)) = st;
    let c = cs[id];
    let rearmed = StaticCreatureRuntime { reactivation_due_tick: Some(sat_add(tick, c.respawn_interval_seconds as u64)), ..c };
    if c.active || c.reactivation_due_tick is None || tick < c.reactivation_due_tick->0 {
        st
    } else if position_taken(players, c.spawn_position)
        || (c.monster_spawn_area is Some && player_in_area(players, c.monster_spawn_area->0)) {
        (cs.insert(id, rearmed), occ, (r, dp + 1, ds))
    } else if occ.contains(position_key(c.spawn_position)) {
        (cs.insert(id, rearmed), occ, (r, dp, ds + 1))
    } else {
        (cs.insert(id, reactivated(c, tick)), occ.insert(position_key(c.spawn_position)), (r + 1, dp, ds))
    }
}

pub open spec fn reactivate_run(st: ResetState, ids: Seq<u32>, players: Map<u64, Player>, tick: u64) -> ResetState
    decreases ids.len(),
{
    if ids.len() == 0 { st } else { reactivate_one(reactivate_run(st, ids.drop_last(), players, tick), ids.last(), players, tick) }
}

/// The summary of a reset run.
pub open spec fn summary_of(st: ResetState) -> StaticCreatureResetSummary {
    StaticCreatureResetSummary {
        reactivated: st.2.0 as usize,
        deferred_by_player_occupancy: st.2.1 as usize,
        deferred_by_static_creature_occupancy: st.2.2 as usize,
    }
}

/// The world after a reset run ending in `st`.
pub open spec fn after_reset(m: WorldModel, st: ResetState) -> WorldModel {
    let w = with_creatures(m, st.0);
    if st.2.0 > 0 { WorldModel { revision: bumped(m.revision), ..w } } else { w }
}

impl WorldState {
    /// Whether another active creature than `id` stands on `p`.
    fn other_creature_at(&self, id: u32, p: Position) -> (r: bool)
        ensures
            r == creature_blocks(self@.static_creatures, id, p),
    {
        let ids = map_keys_u32(&self.static_creatures);
        let mut i: usize = 0;
        while i < ids.len()
            invariant
                i <= ids@.len(),
                forall|j: int| 0 <= j < ids@.len() ==> self@.static_creatures.contains_key(#[trigger] ids@[j]),
                forall|k: u32| #[trigger] self@.static_creatures.contains_key(k) ==> ids@.contains(k),
                forall|j: int| 0 <= j < i ==> !(ids@[j] != id && self@.static_creatures[#[trigger] ids@[j]].active
                    && self@.static_creatures[ids@[j]].entity.position == p),
            decreases ids.len() - i,
        {
            let k = ids[i];
            let c = self.static_creatures.get(&k).unwrap();
            if k != id && c.active && c.entity.position == p {
                return true;
            }
            i = i + 1;
        }
        proof {
            assert forall|k: u32| self@.static_creatures.contains_key(k) && k != id && self@.static_creatures[k].active
                implies #[trigger] self@.static_creatures[k].entity.position != p by {
                let j = choose|j: int| 0 <= j < ids@.len() && ids@[j] == k;
                assert(!(ids@[j] != id && self@.static_creatures[ids@[j]].active && self@.static_creatures[ids@[j]].entity.position == p));
            }
        }
        false
    }

    /// Whether some player stands inside a spawn area.
    fn any_player_in_area(&self, area: StaticCreatureSpawnArea) -> (r: bool)
        ensures
            r == player_in_area(self@.players, area),
    {
        let ids = map_keys(&self.players);
        let mut i: usize = 0;
        while i < ids.len()
            invariant
                i <= ids@.len(),
                forall|j: int| 0 <= j < ids@.len() ==> self@.players.contains_key(#[trigger] ids@[j]),
                forall|k: u64| #[trigger] self@.players.contains_key(k) ==> ids@.contains(k),
                forall|j: int| 0 <= j < i ==> !area_contains(area, self@.players[#[trigger] ids@[j]].position),
            decreases ids.len() - i,
        {
            let k = ids[i];
            if area.contains(self.players.get(&k).unwrap().position) {
                return true;
            }
            i = i + 1;
        }
        proof {
            assert forall|k: u64| self@.players.contains_key(k) implies !area_contains(area, #[trigger] self@.players[k].position) by {
                let j = choose|j: int| 0 <= j < ids@.len() && ids@[j] == k;
                assert(!area_contains(area, self@.players[ids@[j]].position));
            }
        }
        false
    }

    /// Applies a bounded adjacent melee hit by a player to an active static monster. The damage is
    /// capped at 100 points and at the creature's health; a real hit starts the attacker's
    /// one-tick cooldown, and one that brings positive health to zero deactivates the creature.
    pub fn apply_static_creature_melee_damage(&mut self, attacker_id: u64, target_id: u32, requested_damage: u16)
        -> (r: Result<StaticCreatureDamageOutcome, CoreError>)
        ensures
            creatures_sound(old(self)@) ==> creatures_sound(final(self)@),
            r is Err ==> final(self)@ == old(self)@,
            ({
                let m = old(self)@;
                if requested_damage == 0 {
                    r == Err::<StaticCreatureDamageOutcome, CoreError>(CoreError::InvalidCombatEvent)
                } else if !m.players.contains_key(attacker_id) {
                    r == Err::<StaticCreatureDamageOutcome, CoreError>(CoreError::UnknownPlayer(attacker_id))
                } else if !m.static_creatures.contains_key(target_id) {
                    r == Err::<StaticCreatureDamageOutcome, CoreError>(CoreError::UnknownStaticCreature(target_id))
                } else if !m.static_creatures[target_id].active {
                    r == Err::<StaticCreatureDamageOutcome, CoreError>(CoreError::InactiveStaticCreature(target_id))
                } else if m.static_creatures[target_id].is_npc {
                    r == Err::<StaticCreatureDamageOutcome, CoreError>(CoreError::StaticNpcNotAttackable(target_id))
                } else if !spec_adjacent(m.players[attacker_id].position, m.static_creatures[target_id].entity.position) {
                    r == Err::<StaticCreatureDamageOutcome, CoreError>(CoreError::StaticCreatureCombatOutOfRange { attacker_id, target_id })
                } else if !m.combat_cooldowns.contains_key(attacker_id) {
                    r == Err::<StaticCreatureDamageOutcome, CoreError>(CoreError::UnknownPlayer(attacker_id))
                } else if m.tick < m.combat_cooldowns[attacker_id].next_attack_tick {
                    r == Err::<StaticCreatureDamageOutcome, CoreError>(CoreError::CombatCooldownActive { attacker_id,
                        current_tick: m.tick, next_attack_tick: m.combat_cooldowns[attacker_id].next_attack_tick })
                } else {
                    let h = m.static_creatures[target_id].health_percent;
                    let cap: int = if requested_damage < 100 { requested_damage as int } else { 100 };
                    let applied: u8 = if (h as int) < cap { h } else { cap as u8 };
                    &&& r is Ok
                    &&& r->Ok_0 == (StaticCreatureDamageOutcome { attacker_id, target_id, requested_damage,
                        applied_damage: applied, remaining_health_percent: (h - applied) as u8,
                        deactivated: applied > 0 && h == applied })
                    &&& final(self)@ == (if applied == 0 { m } else { after_creature_hit(m, attacker_id, target_id, applied) })
                }
            }),
    {
        if requested_damage == 0 {
            return Err(CoreError::InvalidCombatEvent);
        }
        let attacker_position = match self.players.get(&attacker_id) {
            Some(p) => p.position,
            None => { return Err(CoreError::UnknownPlayer(attacker_id)); },
        };
        let (position, health) = match self.static_creatures.get(&target_id) {
            None => { return Err(CoreError::UnknownStaticCreature(target_id)); },
            Some(c) => {
                if !c.active {
                    return Err(CoreError::InactiveStaticCreature(target_id));
                }
                if c.is_npc {
                    return Err(CoreError::StaticNpcNotAttackable(target_id));
                }
                (c.entity.position, c.health_percent)
            },
        };
        if !attacker_position.is_adjacent_to(position) {
            return Err(CoreError::StaticCreatureCombatOutOfRange { attacker_id, target_id });
        }
        let cooldown = self.player_combat_cooldown(attacker_id)?;
        if self.tick < cooldown.next_attack_tick {
            return Err(CoreError::CombatCooldownActive {
                attacker_id,
                current_tick: self.tick,
                next_attack_tick: cooldown.next_attack_tick,
            });
        }
        let cap: u8 = if requested_damage < 100 { requested_damage as u8 } else { 100 };
        let applied: u8 = if health < cap { health } else { cap };
        if applied == 0 {
            return Ok(StaticCreatureDamageOutcome { attacker_id, target_id, requested_damage, applied_damage: 0,
                remaining_health_percent: health, deactivated: false });
        }
        let ghost m = self@;
        let mut runtime = self.take_creature(target_id);
        runtime.health_percent = health - applied;
        let remaining = runtime.health_percent;
        self.put_creature(target_id, runtime);
        self.player_combat_cooldowns.insert(attacker_id, PlayerCombatCooldown { next_attack_tick: self.tick.saturating_add(1) });
        proof {
            assert(self@.static_creatures =~= m.static_creatures.insert(target_id,
                StaticCreatureRuntime { health_percent: (health - applied) as u8, ..m.static_creatures[target_id] }));
        }
        let deactivated = remaining == 0;
        if deactivated {
            let _ = self.deactivate_static_creature(target_id);
        } else {
            self.mark_changed();
        }
        Ok(StaticCreatureDamageOutcome { attacker_id, target_id, requested_damage, applied_damage: applied,
            remaining_health_percent: remaining, deactivated })
    }

    /// Moves an active creature one cardinal step onto a walkable tile free of players and of
    /// other active creatures; returns where it came from and went to.
    pub fn move_static_creature_cardinal(&mut self, id: u32, direction: CardinalDirection, world_map: &WorldMap)
        -> (r: Result<(Position, Position), CoreError>)
        ensures
            creatures_sound(old(self)@) ==> creatures_sound(final(self)@),
            r is Err ==> final(self)@ == old(self)@,
            ({
                let m = old(self)@;
                if !m.static_creatures.contains_key(id) {
                    r == Err::<(Position, Position), CoreError>(CoreError::UnknownStaticCreature(id))
                } else if !m.static_creatures[id].active {
                    r == Err::<(Position, Position), CoreError>(CoreError::InactiveStaticCreature(id))
                } else {
                    let c = m.static_creatures[id];
                    let from = c.entity.position;
                    match spec_step(from, direction) {
                        None => r == Err::<(Position, Position), CoreError>(CoreError::MapBoundary { position: from }),
                        Some(to) => if !walkable(world_map@, to) {
                            r == Err::<(Position, Position), CoreError>(CoreError::StaticCreatureMovementBlocked(to))
                        } else if position_taken(m.players, to) {
                            r == Err::<(Position, Position), CoreError>(CoreError::PlayerOccupiesStaticCreaturePosition(to))
                        } else if creature_blocks(m.static_creatures, id, to) {
                            r == Err::<(Position, Position), CoreError>(CoreError::StaticCreatureOccupiesPosition(to))
                        } else {
                            &&& r == Ok::<(Position, Position), CoreError>((from, to))
                            &&& final(self)@ == (WorldModel { revision: bumped(m.revision), ..with_creatures(m,
                                m.static_creatures.insert(id, StaticCreatureRuntime {
                                    entity: FeTfsStaticEntity { position: to, ..c.entity }, ..c })) })
                        },
                    }
                }
            }),
    {
        let previous = match self.static_creatures.get(&id) {
            None => { return Err(CoreError::UnknownStaticCreature(id)); },
            Some(c) => {
                if !c.active {
                    return Err(CoreError::InactiveStaticCreature(id));
                }
                c.entity.position
            },
        };
        let destination = previous.step(direction)?;
        if !world_map.is_walkable(destination) {
            return Err(CoreError::StaticCreatureMovementBlocked(destination));
        }
        if self.is_player_occupied(destination) {
            return Err(CoreError::PlayerOccupiesStaticCreaturePosition(destination));
        }
        if self.other_creature_at(id, destination) {
            return Err(CoreError::StaticCreatureOccupiesPosition(destination));
        }
        let ghost m = self@;
        let mut runtime = self.take_creature(id);
        runtime.entity.position = destination;
        let ghost c2 = runtime;
        self.put_creature(id, runtime);
        proof { assert(self@.static_creatures =~= m.static_creatures.insert(id, c2)); }
        self.refresh_static_creature_occupancy();
        self.mark_changed();
        Ok((previous, destination))
    }

    /// Reactivates every inactive creature at its spawn position unless a player or an active
    /// creature holds it; creatures are visited in identifier order.
    pub fn reset_static_creatures(&mut self) -> (r: StaticCreatureResetSummary)
        ensures
            creatures_sound(old(self)@) ==> creatures_sound(final(self)@),
            ({
                let m = old(self)@;
                let st = reset_run((m.static_creatures, m.static_occupied, (0, 0, 0)),
                    sorted_u32(m.static_creatures.dom()), m.players, m.tick);
                &&& r == summary_of(st)
                &&& final(self)@ == after_reset(m, st)
            }),
    {
        let ghost m = self@;
        let ids = map_keys_u32(&self.static_creatures);
        proof { lemma_sorted_u32(ids@, m.static_creatures.dom()); }
        let mut taken = self.static_occupied_positions.clone();
        let mut reactivated_n: usize = 0;
        let mut deferred_player: usize = 0;
        let mut deferred_static: usize = 0;
        let mut i: usize = 0;
        while i < ids.len()
            invariant
                i <= ids@.len(),
                ids@.len() == m.static_creatures.dom().len(),
                strictly_increasing_u32(ids@),
                forall|j: int| 0 <= j < ids@.len() ==> m.static_creatures.contains_key(#[trigger] ids@[j]),
                self@ == (WorldModel { static_creatures: self@.static_creatures, ..m }),
                self@.static_creatures.dom() == m.static_creatures.dom(),
                forall|j: int| i <= j < ids@.len() ==> self@.static_creatures[#[trigger] ids@[j]] == m.static_creatures[ids@[j]],
                reset_run((m.static_creatures, m.static_occupied, (0, 0, 0)), ids@.take(i as int), m.players, m.tick)
                    == (self@.static_creatures, taken@, (reactivated_n as int, deferred_player as int, deferred_static as int)),
                creatures_sound(m) ==> creatures_sound(self@),
                reactivated_n + deferred_player + deferred_static <= i,
            decreases ids.len() - i,
        {
            let id = ids[i];
            proof { assert(ids@.take(i + 1).drop_last() =~= ids@.take(i as int)); }
            let c = self.static_creatures.get(&id).unwrap();
            if !c.active {
                let spawn = c.spawn_position;
                if self.is_player_occupied(spawn) {
                    deferred_player = deferred_player + 1;
                } else if taken.contains(&spawn.key()) {
                    deferred_static = deferred_static + 1;
                } else {
                    let ghost before = self@.static_creatures;
                    let mut runtime = self.take_creature(id);
                    runtime.entity.position = runtime.spawn_position;
                    runtime.health_percent = runtime.entity.health_percent;
                    runtime.active = true;
                    runtime.activated_at_tick = self.tick;
                    runtime.inactive_since_tick = None;
                    runtime.reactivation_due_tick = None;
                    self.put_creature(id, runtime);
                    taken.insert(spawn.key());
                    reactivated_n = reactivated_n + 1;
                    proof {
                        assert(self@.static_creatures =~= before.insert(id, reactivated(before[id], m.tick)));
                        assert forall|j: int| i + 1 <= j < ids@.len()
                            implies self@.static_creatures[#[trigger] ids@[j]] == m.static_creatures[ids@[j]] by {
                            assert(ids@[j] != id);
                        }
                    }
                }
            }
            i = i + 1;
        }
        proof { assert(ids@.take(ids@.len() as int) =~= ids@); }
        self.refresh_static_creature_occupancy();
        if reactivated_n > 0 {
            self.mark_changed();
        }
        StaticCreatureResetSummary {
            reactivated: reactivated_n,
            deferred_by_player_occupancy: deferred_player,
            deferred_by_static_creature_occupancy: deferred_static,
        }
    }

    /// Reactivates inactive creatures whose reactivation tick has come, in identifier order. A
    /// due creature blocked by a player (on its spawn position or inside its spawn area) or by an
    /// active creature waits one more full interval.
    pub fn reactivate_due_static_creatures(&mut self) -> (r: StaticCreatureResetSummary)
        ensures
            creatures_sound(old(self)@) ==> creatures_sound(final(self)@),
            ({
                let m = old(self)@;
                let st = reactivate_run((m.static_creatures, m.static_occupied, (0, 0, 0)),
                    sorted_u32(m.static_creatures.dom()), m.players, m.tick);
                &&& r == summary_of(st)
                &&& final(self)@ == after_reset(m, st)
            }),
    {
        let ghost m = self@;
        let ids = map_keys_u32(&self.static_creatures);
        proof { lemma_sorted_u32(ids@, m.static_creatures.dom()); }
        let mut taken = self.static_occupied_positions.clone();
        let mut reactivated_n: usize = 0;
        let mut deferred_player: usize = 0;
        let mut deferred_static: usize = 0;
        let tick = self.tick;
        let mut i: usize = 0;
        while i < ids.len()
            invariant
                i <= ids@.len(),
                tick == m.tick,
                ids@.len() == m.static_creatures.dom().len(),
                strictly_increasing_u32(ids@),
                forall|j: int| 0 <= j < ids@.len() ==> m.static_creatures.contains_key(#[trigger] ids@[j]),
                self@ == (WorldModel { static_creatures: self@.static_creatures, ..m }),
                self@.static_creatures.dom() == m.static_creatures.dom(),
                forall|j: int| i <= j < ids@.len() ==> self@.static_creatures[#[trigger] ids@[j]] == m.static_creatures[ids@[j]],
                reactivate_run((m.static_creatures, m.static_occupied, (0, 0, 0)), ids@.take(i as int), m.players, m.tick)
                    == (self@.static_creatures, taken@, (reactivated_n as int, deferred_player as int, deferred_static as int)),
                creatures_sound(m) ==> creatures_sound(self@),
                reactivated_n + deferred_player + deferred_static <= i,
            decreases ids.len() - i,
        {
            let id = ids[i];
            proof { assert(ids@.take(i + 1).drop_last() =~= ids@.take(i as int)); }
            let c = self.static_creatures.get(&id).unwrap();
            let due = match c.reactivation_due_tick { Some(d) => !c.active && tick >= d, None => false };
            if due {
                let spawn = c.spawn_position;
                let area = c.monster_spawn_area;
                let interval = c.respawn_interval_seconds;
                let blocked_by_player = self.is_player_occupied(spawn) || match area {
                    Some(a) => self.any_player_in_area(a),
                    None => false,
                };
                let ghost before = self@.static_creatures;
                if blocked_by_player || taken.contains(&spawn.key()) {
                    let mut runtime = self.take_creature(id);
                    runtime.reactivation_due_tick = Some(tick.saturating_add(interval as u64));
                    self.put_creature(id, runtime);
                    if blocked_by_player {
                        deferred_player = deferred_player + 1;
                    } else {
                        deferred_static = deferred_static + 1;
                    }
                    proof {
                        assert(self@.static_creatures =~= before.insert(id, StaticCreatureRuntime {
                            reactivation_due_tick: Some(sat_add(tick, interval as u64)), ..before[id] }));
                    }
                } else {
                    let mut runtime = self.take_creature(id);
                    runtime.entity.position = runtime.spawn_position;
                    runtime.health_percent = runtime.entity.health_percent;
                    runtime.active = true;
                    runtime.activated_at_tick = tick;
                    runtime.inactive_since_tick = None;
                    runtime.reactivation_due_tick = None;
                    self.put_creature(id, runtime);
                    taken.insert(spawn.key());
                    reactivated_n = reactivated_n + 1;
                    proof { assert(self@.static_creatures =~= before.insert(id, reactivated(before[id], m.tick))); }
                }
                proof {
                    assert forall|j: int| i + 1 <= j < ids@.len()
                        implies self@.static_creatures[#[trigger] ids@[j]] == m.static_creatures[ids@[j]] by {
                        assert(ids@[j] != id);
                    }
                }
            }
            i = i + 1;
        }
        proof { assert(ids@.take(ids@.len() as int) =~= ids@); }
        self.refresh_static_creature_occupancy();
        if reactivated_n > 0 {
            self.mark_changed();
        }
        StaticCreatureResetSummary {
            reactivated: reactivated_n,
            deferred_by_player_occupancy: deferred_player,
            deferred_by_static_creature_occupancy: deferred_static,
        }
    }
}


/// A player a creature at `pos` may target within `range`: same floor, not in god mode, not
/// invisible, not dead.
pub open spec fn target_candidate(m: WorldModel, pos: Position, range: u8, p: u64) -> bool {
    &&& m.players.contains_key(p)
    &&& m.players[p].position.z == pos.z
    &&& !m.god_mode.contains(p)
    &&& !m.invisible.contains(p)
    &&& !is_dead(m, p)
    &&& chebyshev(m.players[p].position, pos) <= range
}

pub open spec fn is_dead(m: WorldModel, p: u64) -> bool {
    m.respawn_states.contains_key(p) && m.respawn_states[p].dead
}

/// `p` is the nearest candidate, the least identifier among the nearest.
pub open spec fn nearest_candidate(m: WorldModel, pos: Position, range: u8, p: u64) -> bool {
    &&& target_candidate(m, pos, range, p)
    &&& forall|q: u64| #[trigger] target_candidate(m, pos, range, q) ==> (chebyshev(m.players[p].position, pos)
        < chebyshev(m.players[q].position, pos) || (chebyshev(m.players[p].position, pos)
        == chebyshev(m.players[q].position, pos) && p <= q))
}

/// The target a creature at `pos` selects.
pub open spec fn selected_target(m: WorldModel, pos: Position, range: u8) -> Option<u64> {
    if exists|p: u64| nearest_candidate(m, pos, range, p) {
        Some(choose|p: u64| nearest_candidate(m, pos, range, p))
    } else {
        None
    }
}

/// The world after a creature's target is cleared; the revision moves only if it had one.
pub open spec fn untargeted(m: WorldModel, id: u32) -> WorldModel {
    let c = m.static_creatures[id];
    if c.target_player_id is Some {
        WorldModel {
            static_creatures: m.static_creatures.insert(id, StaticCreatureRuntime { target_player_id: None, ..c }),
            revision: bumped(m.revision),
            ..m
        }
    } else {
        m
    }
}

/// The world after one creature's runtime changes.
pub open spec fn with_creature(m: WorldModel, id: u32, c: StaticCreatureRuntime) -> WorldModel {
    WorldModel { static_creatures: m.static_creatures.insert(id, c), ..m }
}

/// The damage a creature requests: its declared value, else the fallback.
pub open spec fn requested_of(c: StaticCreatureRuntime, fallback: u16) -> u16 {
    match declared_damage(c) {
        Some(v) => v,
        None => fallback,
    }
}

/// The result and the world after creature `cid` attacks its selected target.
pub open spec fn target_damage(m: WorldModel, cid: u32, fallback: u16, map: WorldMapView)
    -> (Result<StaticCreatureTargetAttackOutcome, CoreError>, WorldModel)
{
    if !m.static_creatures.contains_key(cid) {
        (Err(CoreError::UnknownStaticCreature(cid)), m)
    } else {
        let c = m.static_creatures[cid];
        if !c.active {
            (Err(CoreError::InactiveStaticCreature(cid)), m)
        } else if m.tick < c.next_melee_due_tick {
            (Ok(StaticCreatureTargetAttackOutcome::CooldownNotDue { creature_id: cid, due_tick: c.next_melee_due_tick }), m)
        } else if c.is_npc {
            (Ok(StaticCreatureTargetAttackOutcome::NoTarget), untargeted(m, cid))
        } else if c.target_player_id is None {
            (Ok(StaticCreatureTargetAttackOutcome::NoTarget), m)
        } else {
            let t = c.target_player_id->0;
            if !m.players.contains_key(t) || is_dead(m, t) {
                (Ok(StaticCreatureTargetAttackOutcome::NoTarget), untargeted(m, cid))
            } else if !spec_adjacent(c.entity.position, m.players[t].position) {
                (Ok(StaticCreatureTargetAttackOutcome::TargetNotAdjacent { creature_id: cid, target_player_id: t }), m)
            } else {
                let requested = requested_of(c, fallback);
                let m2 = if c.direct_melee_damage_range is Some {
                    with_creature(m, cid, StaticCreatureRuntime {
                        direct_melee_damage_sequence: sat_add(c.direct_melee_damage_sequence, 1), ..c })
                } else {
                    m
                };
                if !m2.vitals.contains_key(t) || !m2.defenses.contains_key(t) {
                    (Err(CoreError::UnknownPlayer(t)), m2)
                } else {
                    let health = m2.vitals[t].health;
                    let reduced = mitigated(m2.defenses[t], requested);
                    let lethal = health > 0 && reduced >= health;
                    if lethal && !m2.towns.contains_key(t) {
                        (Err(CoreError::UnknownPlayer(t)), m2)
                    } else if lethal && !map.towns.contains_key(m2.towns[t]) {
                        (Err(CoreError::UnknownTown(m2.towns[t])), m2)
                    } else {
                        match damage_result(m2, t, reduced) {
                            Err(e) => (Err(e), m2),
                            Ok(((applied, remaining), m3)) => {
                                let dies = lethal && remaining == 0 && applied > 0;
                                let (dr, m4) = if dies { death_outcome(m3, t, m2.towns[t], map) }
                                    else { (Ok(living_state()), m3) };
                                if dies && dr is Err {
                                    (Err(dr->Err_0), m4)
                                } else {
                                    let m5 = if dies { untargeted(m4, cid) } else { m4 };
                                    let m6 = if applied > 0 { WorldModel { revision: bumped(m5.revision), ..m5 } } else { m5 };
                                    let m7 = match c.melee_cooldown_ticks {
                                        Some(cd) => with_creature(m6, cid, StaticCreatureRuntime {
                                            next_melee_due_tick: sat_add(m6.tick, cd), ..m6.static_creatures[cid] }),
                                        None => m6,
                                    };
                                    (Ok(StaticCreatureTargetAttackOutcome::Applied {
                                        creature_id: cid,
                                        target_player_id: t,
                                        requested_damage: requested,
                                        applied_damage: applied,
                                        remaining_health: remaining,
                                        death_state: if dies { Some(dr->Ok_0) } else { None },
                                    }), m7)
                                }
                            },
                        }
                    }
                }
            }
        }
    }
}

impl WorldState {
    /// The nearest eligible player within range of `pos`, least identifier first among equals.
    fn nearest_target(&self, pos: Position, max_range: u8) -> (r: Option<u64>)
        ensures
            r == selected_target(self@, pos, max_range),
    {
        let ids = map_keys(&self.players);
        let mut best: Option<(u16, u64)> = None;
        let mut i: usize = 0;
        while i < ids.len()
            invariant
                i <= ids@.len(),
                strictly_increasing(ids@),
                forall|j: int| 0 <= j < ids@.len() ==> self@.players.contains_key(#[trigger] ids@[j]),
                forall|k: u64| #[trigger] self@.players.contains_key(k) ==> ids@.contains(k),
                match best {
                    None => forall|j: int| 0 <= j < i ==> !target_candidate(self@, pos, max_range, #[trigger] ids@[j]),
                    Some((d, p)) => {
                        &&& target_candidate(self@, pos, max_range, p)
                        &&& d == chebyshev(self@.players[p].position, pos)
                        &&& exists|j: int| 0 <= j < i && ids@[j] == p
                        &&& forall|j: int| 0 <= j < i && #[trigger] target_candidate(self@, pos, max_range, ids@[j])
                            ==> (d < chebyshev(self@.players[ids@[j]].position, pos)
                                || (d == chebyshev(self@.players[ids@[j]].position, pos) && p <= ids@[j]))
                    },
                },
            decreases ids.len() - i,
        {
            let k = ids[i];
            let player_pos = self.players.get(&k).unwrap().position;
            let dead = match self.player_respawn_states.get(&k) { Some(s) => s.dead, None => false };
            let dx = abs_diff_u16(player_pos.x, pos.x);
            let dy = abs_diff_u16(player_pos.y, pos.y);
            let d: u16 = if dx >= dy { dx } else { dy };
            let eligible = player_pos.z == pos.z && !self.player_god_mode.contains(&k)
                && !self.player_invisible.contains(&k) && !dead && d <= max_range as u16;
            proof {
                assert(eligible == target_candidate(self@, pos, max_range, k));
                assert(d == chebyshev(self@.players[k].position, pos));
            }
            if eligible {
                let better = match best { None => true, Some((bd, _)) => d < bd };
                if better {
                    proof {
                        match best {
                            None => {},
                            Some((bd, bp)) => {
                                let jb = choose|j: int| 0 <= j < i && ids@[j] == bp;
                                assert(ids@[jb] < ids@[i as int]);
                            },
                        }
                    }
                    best = Some((d, k));
                }
            }
            proof {
                match best {
                    None => {},
                    Some((bd, bp)) => {
                        assert forall|j: int| 0 <= j < i + 1 && #[trigger] target_candidate(self@, pos, max_range, ids@[j])
                            implies (bd < chebyshev(self@.players[ids@[j]].position, pos)
                                || (bd == chebyshev(self@.players[ids@[j]].position, pos) && bp <= ids@[j])) by {
                            if j < i {
                            } else {
                                if bp != k {
                                    let jb = choose|q: int| 0 <= q < i && ids@[q] == bp;
                                    assert(ids@[jb] < ids@[i as int]);
                                }
                            }
                        }
                    },
                }
            }
            i = i + 1;
        }
        proof {
            match best {
                None => {
                    assert forall|p: u64| !nearest_candidate(self@, pos, max_range, p) by {
                        if target_candidate(self@, pos, max_range, p) {
                            let j = choose|j: int| 0 <= j < ids@.len() && ids@[j] == p;
                            assert(!target_candidate(self@, pos, max_range, ids@[j]));
                        }
                    }
                },
                Some((bd, bp)) => {
                    assert forall|q: u64| #[trigger] target_candidate(self@, pos, max_range, q)
                        implies (chebyshev(self@.players[bp].position, pos) < chebyshev(self@.players[q].position, pos)
                            || (chebyshev(self@.players[bp].position, pos) == chebyshev(self@.players[q].position, pos) && bp <= q)) by {
                        let j = choose|j: int| 0 <= j < ids@.len() && ids@[j] == q;
                        assert(target_candidate(self@, pos, max_range, ids@[j]));
                    }
                    assert(nearest_candidate(self@, pos, max_range, bp));
                    let c = choose|p: u64| nearest_candidate(self@, pos, max_range, p);
                    assert(c == bp);
                },
            }
        }
        match best {
            Some((_, p)) => Some(p),
            None => None,
        }
    }

    /// Selects the nearest living, visible, mortal player on the creature's floor within a range of
    /// 1 to `MAX_STATIC_CREATURE_TARGET_RANGE`, least identifier first among equals. An NPC
    /// selects nobody. The revision moves only when the target changed.
    pub fn select_static_creature_target(&mut self, creature_id: u32, max_range: u8)
        -> (r: Result<StaticCreatureTargetSelection, CoreError>)
        ensures
            creatures_sound(old(self)@) ==> creatures_sound(final(self)@),
            r is Err ==> final(self)@ == old(self)@,
            ({
                let m = old(self)@;
                if max_range == 0 || max_range > MAX_STATIC_CREATURE_TARGET_RANGE {
                    r == Err::<StaticCreatureTargetSelection, CoreError>(CoreError::InvalidStaticCreatureTargetRange(max_range))
                } else if !m.static_creatures.contains_key(creature_id) {
                    r == Err::<StaticCreatureTargetSelection, CoreError>(CoreError::UnknownStaticCreature(creature_id))
                } else if !m.static_creatures[creature_id].active {
                    r == Err::<StaticCreatureTargetSelection, CoreError>(CoreError::InactiveStaticCreature(creature_id))
                } else {
                    let c = m.static_creatures[creature_id];
                    let t = if c.is_npc { None } else { selected_target(m, c.entity.position, max_range) };
                    &&& r == Ok::<StaticCreatureTargetSelection, CoreError>(StaticCreatureTargetSelection {
                        creature_id, target_player_id: t, max_range })
                    &&& final(self)@ == (if c.target_player_id == t { m } else { WorldModel {
                        revision: bumped(m.revision),
                        ..with_creature(m, creature_id, StaticCreatureRuntime { target_player_id: t, ..c }) } })
                }
            }),
    {
        if max_range == 0 || max_range > MAX_STATIC_CREATURE_TARGET_RANGE {
            return Err(CoreError::InvalidStaticCreatureTargetRange(max_range));
        }
        let (position, is_npc, current) = match self.static_creatures.get(&creature_id) {
            None => { return Err(CoreError::UnknownStaticCreature(creature_id)); },
            Some(c) => {
                if !c.active {
                    return Err(CoreError::InactiveStaticCreature(creature_id));
                }
                (c.entity.position, c.is_npc, c.target_player_id)
            },
        };
        let target = if is_npc { None } else { self.nearest_target(position, max_range) };
        if current != target {
            let ghost m = self@;
            let mut runtime = self.take_creature(creature_id);
            runtime.target_player_id = target;
            let ghost c2 = runtime;
            self.put_creature(creature_id, runtime);
            proof { assert(self@.static_creatures =~= m.static_creatures.insert(creature_id, c2)); }
            self.mark_changed();
        }
        Ok(StaticCreatureTargetSelection { creature_id, target_player_id: target, max_range })
    }

    /// One attack of an active creature on its selected living, adjacent target: the declared
    /// damage value (cycling its sequence) or the fallback, mitigated by the target's defense. A
    /// potentially lethal hit first requires the target's town to have a temple and then enters
    /// the death state. A declared melee cooldown then sets the creature's next attack tick.
    pub fn apply_static_creature_target_damage(&mut self, creature_id: u32, fallback_damage: u16, world_map: &WorldMap)
        -> (r: Result<StaticCreatureTargetAttackOutcome, CoreError>)
        ensures
            creatures_sound(old(self)@) ==> creatures_sound(final(self)@),
            (r, final(self)@) == target_damage(old(self)@, creature_id, fallback_damage, world_map@),
    {
        let ghost m = self@;
        let (source, target, cooldown, range, is_npc) = match self.static_creatures.get(&creature_id) {
            None => { return Err(CoreError::UnknownStaticCreature(creature_id)); },
            Some(c) => {
                if !c.active {
                    return Err(CoreError::InactiveStaticCreature(creature_id));
                }
                if self.tick < c.next_melee_due_tick {
                    return Ok(StaticCreatureTargetAttackOutcome::CooldownNotDue { creature_id, due_tick: c.next_melee_due_tick });
                }
                (c.entity.position, c.target_player_id, c.melee_cooldown_ticks, c.direct_melee_damage_range, c.is_npc)
            },
        };
        if is_npc {
            self.clear_static_creature_target(creature_id);
            return Ok(StaticCreatureTargetAttackOutcome::NoTarget);
        }
        let target_player_id = match target {
            Some(t) => t,
            None => { return Ok(StaticCreatureTargetAttackOutcome::NoTarget); },
        };
        let target_position = match self.players.get(&target_player_id) {
            Some(p) => p.position,
            None => {
                self.clear_static_creature_target(creature_id);
                return Ok(StaticCreatureTargetAttackOutcome::NoTarget);
            },
        };
        let dead = match self.player_respawn_states.get(&target_player_id) { Some(s) => s.dead, None => false };
        if dead {
            self.clear_static_creature_target(creature_id);
            return Ok(StaticCreatureTargetAttackOutcome::NoTarget);
        }
        if !source.is_adjacent_to(target_position) {
            return Ok(StaticCreatureTargetAttackOutcome::TargetNotAdjacent { creature_id, target_player_id });
        }
        let requested_damage = match next_declared_damage(self.static_creatures.get(&creature_id).unwrap()) {
            Some(v) => v,
            None => fallback_damage,
        };
        if range.is_some() {
            let mut runtime = self.take_creature(creature_id);
            runtime.direct_melee_damage_sequence = runtime.direct_melee_damage_sequence.saturating_add(1);
            let ghost c2 = runtime;
            self.put_creature(creature_id, runtime);
            proof { assert(self@.static_creatures =~= m.static_creatures.insert(creature_id, c2)); }
        }
        let ghost m2 = self@;
        let current_health = self.player_vitals(target_player_id)?.health;
        let mitigated_damage = self.player_combat_defense(target_player_id)?.mitigate_physical(requested_damage);
        let potentially_lethal = current_health > 0 && mitigated_damage >= current_health;
        let town_id: u32 = if potentially_lethal {
            let town_id = self.player_town(target_player_id)?;
            if world_map.temple_position_for_town(town_id).is_none() {
                return Err(CoreError::UnknownTown(town_id));
            }
            town_id
        } else {
            0
        };
        let (applied_damage, remaining_health) = self.apply_damage_to_known_target(target_player_id, mitigated_damage)?;
        let dies = potentially_lethal && remaining_health == 0 && applied_damage > 0;
        let death_state = if dies {
            Some(self.apply_player_death(target_player_id, town_id, world_map)?)
        } else {
            None
        };
        if dies {
            self.clear_static_creature_target(creature_id);
        }
        if applied_damage > 0 {
            self.mark_changed();
        }
        if let Some(cd) = cooldown {
            let ghost m6 = self@;
            let tick = self.tick;
            let mut runtime = self.take_creature(creature_id);
            runtime.next_melee_due_tick = tick.saturating_add(cd);
            let ghost c7 = runtime;
            self.put_creature(creature_id, runtime);
            proof { assert(self@.static_creatures =~= m6.static_creatures.insert(creature_id, c7)); }
        }
        Ok(StaticCreatureTargetAttackOutcome::Applied {
            creature_id,
            target_player_id,
            requested_damage,
            applied_damage,
            remaining_health,
            death_state,
        })
    }
}


/// A tick distance clamped to `u32`.
pub open spec fn clamp_u32(v: int) -> u32 {
    if v > u32::MAX { u32::MAX } else { v as u32 }
}

pub open spec fn sat_sub(a: u64, b: u64) -> int {
    if a >= b { a - b } else { 0 }
}

/// A creature's runtime state as the world's operations keep it: health (current and at spawn)
/// at most 100, no
/// reactivation pending while active, a pending reactivation only with a positive interval and
/// at most one interval away, and the next melee at most one cooldown away.
pub open spec fn creature_sound(c: StaticCreatureRuntime, tick: u64) -> bool {
    &&& c.health_percent <= 100
    &&& c.entity.health_percent <= 100
    &&& c.active ==> c.reactivation_due_tick is None
    &&& c.reactivation_due_tick is Some ==> c.respawn_interval_seconds > 0
        && sat_sub(c.reactivation_due_tick->0, tick) <= c.respawn_interval_seconds
    &&& c.melee_cooldown_ticks is Some ==> sat_sub(c.next_melee_due_tick, tick) <= c.melee_cooldown_ticks->0
}

/// Every installed creature's runtime state is sound at the world's tick. Each operation that
/// changes the static creatures or the clock states that it keeps this (installation asks for
/// entities with health at most 100); every other operation leaves both unchanged.
pub open spec fn creatures_sound(m: WorldModel) -> bool {
    forall|id: u32| #[trigger] m.static_creatures.contains_key(id) ==> creature_sound(m.static_creatures[id], m.tick)
}

/// Sound creature state stays sound as the clock moves forward.
pub proof fn lemma_sound_later(m: WorldModel, w: WorldModel)
    requires
        creatures_sound(m),
        w.static_creatures == m.static_creatures,
        w.tick >= m.tick,
    ensures
        creatures_sound(w),
{
    assert forall|id: u32| #[trigger] w.static_creatures.contains_key(id) implies creature_sound(w.static_creatures[id], w.tick) by {
        assert(creature_sound(m.static_creatures[id], m.tick));
    }
}

/// The restart snapshot of one creature at `tick`. A melee delay is recorded only for an active
/// creature with a melee cooldown: an inactive creature has no pending melee, and a restore
/// accepts no melee delay for one.
pub open spec fn snapshot_of(id: u32, c: StaticCreatureRuntime, tick: u64) -> StaticCreatureRuntimeSnapshot {
    StaticCreatureRuntimeSnapshot {
        id,
        position: c.entity.position,
        active: c.active,
        health_percent: c.health_percent,
        reactivation_remaining_seconds: match c.reactivation_due_tick {
            Some(d) => Some(clamp_u32(sat_sub(d, tick))),
            None => None,
        },
        direct_melee_cooldown_remaining_ticks: if c.active && c.melee_cooldown_ticks is Some {
            Some(clamp_u32(sat_sub(c.next_melee_due_tick, tick)))
        } else {
            None
        },
        direct_melee_damage_sequence: c.direct_melee_damage_sequence,
    }
}

/// The restart snapshots of every installed creature at the world's tick, by ascending identifier.
pub open spec fn runtime_snapshots(m: WorldModel) -> Seq<StaticCreatureRuntimeSnapshot> {
    let ids = sorted_u32(m.static_creatures.dom());
    Seq::new(ids.len(), |i: int| snapshot_of(ids[i], m.static_creatures[ids[i]], m.tick))
}

/// The identifiers of a sequence of records.
pub open spec fn record_ids(rs: Seq<StaticCreatureRuntimeSnapshot>) -> Set<u32> {
    Set::new(|id: u32| exists|i: int| 0 <= i < rs.len() && #[trigger] rs[i].id == id)
}

/// Why one record cannot be restored onto an installed creature, if it cannot.
pub open spec fn record_error(c: StaticCreatureRuntime, r: StaticCreatureRuntimeSnapshot) -> Option<CoreError> {
    if r.active && r.reactivation_remaining_seconds is Some {
        Some(CoreError::InvalidStaticCreatureReactivationDelay { id: r.id,
            remaining_seconds: r.reactivation_remaining_seconds->0, interval_seconds: c.respawn_interval_seconds })
    } else if r.reactivation_remaining_seconds is Some && (c.respawn_interval_seconds == 0
        || r.reactivation_remaining_seconds->0 > c.respawn_interval_seconds) {
        Some(CoreError::InvalidStaticCreatureReactivationDelay { id: r.id,
            remaining_seconds: r.reactivation_remaining_seconds->0, interval_seconds: c.respawn_interval_seconds })
    } else if r.direct_melee_cooldown_remaining_ticks is Some && (!r.active || c.melee_cooldown_ticks is None) {
        Some(CoreError::InvalidStaticCreatureMeleeCooldownDelay { id: r.id,
            remaining_ticks: r.direct_melee_cooldown_remaining_ticks->0,
            cooldown_ticks: if c.melee_cooldown_ticks is Some { c.melee_cooldown_ticks->0 } else { 0 } })
    } else if r.direct_melee_cooldown_remaining_ticks is Some && c.melee_cooldown_ticks is Some
        && r.direct_melee_cooldown_remaining_ticks->0 > c.melee_cooldown_ticks->0 {
        Some(CoreError::InvalidStaticCreatureMeleeCooldownDelay { id: r.id,
            remaining_ticks: r.direct_melee_cooldown_remaining_ticks->0, cooldown_ticks: c.melee_cooldown_ticks->0 })
    } else {
        None
    }
}

/// The first record refused on its own: a repeated identifier, a health above 100, or a delay
/// that does not fit the installed creature.
pub open spec fn records_error(cs: Creatures, rs: Seq<StaticCreatureRuntimeSnapshot>) -> Option<CoreError>
    decreases rs.len(),
{
    if rs.len() == 0 {
        None
    } else {
        match records_error(cs, rs.drop_last()) {
            Some(e) => Some(e),
            None => {
                let r = rs.last();
                if record_ids(rs.drop_last()).contains(r.id) {
                    Some(CoreError::DuplicateStaticSpawnId(r.id))
                } else if r.health_percent > 100 {
                    Some(CoreError::InvalidStaticCreatureHealthPercent(r.health_percent))
                } else if cs.contains_key(r.id) {
                    record_error(cs[r.id], r)
                } else {
                    None
                }
            },
        }
    }
}

/// The records that name installed creatures.
pub open spec fn known_records(cs: Creatures, rs: Seq<StaticCreatureRuntimeSnapshot>) -> Seq<StaticCreatureRuntimeSnapshot> {
    rs.filter(|r: StaticCreatureRuntimeSnapshot| cs.contains_key(r.id))
}

/// The positions held by active creatures that no known record restores.
pub open spec fn unrestored_occupancy(cs: Creatures, known: Seq<StaticCreatureRuntimeSnapshot>) -> Set<(u16, u16, u8)> {
    Set::new(|k: (u16, u16, u8)| exists|id: u32| cs.contains_key(id) && cs[id].active && !record_ids(known).contains(id)
        && #[trigger] position_key(cs[id].entity.position) == k)
}

/// The first active known record whose position a player or another active creature holds, with
/// the positions taken so far.
pub open spec fn placement_error(players: Map<u64, Player>, occ: Set<(u16, u16, u8)>, known: Seq<StaticCreatureRuntimeSnapshot>)
    -> (Option<CoreError>, Set<(u16, u16, u8)>)
    decreases known.len(),
{
    if known.len() == 0 {
        (None, occ)
    } else {
        let (e, o) = placement_error(players, occ, known.drop_last());
        let r = known.last();
        if e is Some || !r.active {
            (e, o)
        } else if position_taken(players, r.position) {
            (Some(CoreError::PlayerOccupiesStaticCreaturePosition(r.position)), o)
        } else if o.contains(position_key(r.position)) {
            (Some(CoreError::StaticCreatureOccupiesPosition(r.position)), o)
        } else {
            (None, o.insert(position_key(r.position)))
        }
    }
}

pub open spec fn due_after(tick: u64, remaining: Option<u32>) -> Option<u64> {
    match remaining {
        Some(x) => Some(sat_add(tick, x as u64)),
        None => None,
    }
}

pub open spec fn melee_due_after(tick: u64, remaining: Option<u32>) -> u64 {
    match remaining {
        Some(x) => sat_add(tick, x as u64),
        None => tick,
    }
}

/// A creature after a record is restored onto it at `tick`; its target is cleared.
pub open spec fn restored(c: StaticCreatureRuntime, r: StaticCreatureRuntimeSnapshot, tick: u64) -> StaticCreatureRuntime {
    StaticCreatureRuntime {
        entity: FeTfsStaticEntity { position: r.position, ..c.entity },
        active: r.active,
        health_percent: r.health_percent,
        target_player_id: None,
        direct_melee_damage_sequence: r.direct_melee_damage_sequence,
        next_melee_due_tick: melee_due_after(tick, r.direct_melee_cooldown_remaining_ticks),
        activated_at_tick: if r.active { tick } else { c.activated_at_tick },
        inactive_since_tick: if r.active { None } else { Some(tick) },
        reactivation_due_tick: if r.active { None } else { due_after(tick, r.reactivation_remaining_seconds) },
        ..c
    }
}

/// Restoring a record changes observable runtime state.
pub open spec fn record_changes(c: StaticCreatureRuntime, r: StaticCreatureRuntimeSnapshot, tick: u64) -> bool {
    ||| c.entity.position != r.position
    ||| c.active != r.active
    ||| c.health_percent != r.health_percent
    ||| c.target_player_id is Some
    ||| c.reactivation_due_tick != due_after(tick, r.reactivation_remaining_seconds)
    ||| c.next_melee_due_tick != melee_due_after(tick, r.direct_melee_cooldown_remaining_ticks)
    ||| c.direct_melee_damage_sequence != r.direct_melee_damage_sequence
}

/// Applying the known records one after another.
pub open spec fn apply_records(cs: Creatures, known: Seq<StaticCreatureRuntimeSnapshot>, tick: u64) -> (Creatures, bool)
    decreases known.len(),
{
    if known.len() == 0 {
        (cs, false)
    } else {
        let (c1, changed) = apply_records(cs, known.drop_last(), tick);
        let r = known.last();
        if c1.contains_key(r.id) {
            (c1.insert(r.id, restored(c1[r.id], r, tick)), changed || record_changes(c1[r.id], r, tick))
        } else {
            (c1, changed)
        }
    }
}

/// An intent whose static target, if any, is an active creature.
pub open spec fn target_live(i: PlayerInteractionIntent, cs: Creatures) -> bool {
    match i.target_static_creature_id {
        Some(c) => cs.contains_key(c) && cs[c].active,
        None => true,
    }
}

/// The intents whose static targets are still active creatures.
pub open spec fn intents_on_live(m: Map<u64, PlayerInteractionIntent>, cs: Creatures) -> Map<u64, PlayerInteractionIntent> {
    Map::new(|k: u64| m.contains_key(k) && target_live(m[k], cs), |k: u64| m[k])
}

/// The result and the world after restoring runtime records.
pub open spec fn restore_result(m: WorldModel, rs: Seq<StaticCreatureRuntimeSnapshot>)
    -> Result<(StaticCreatureRuntimeRestoreSummary, WorldModel), CoreError>
{
    let cs = m.static_creatures;
    let known = known_records(cs, rs);
    if records_error(cs, rs) is Some {
        Err(records_error(cs, rs)->0)
    } else if placement_error(m.players, unrestored_occupancy(cs, known), known).0 is Some {
        Err(placement_error(m.players, unrestored_occupancy(cs, known), known).0->0)
    } else {
        let (cs2, changed) = apply_records(cs, known, m.tick);
        let summary = StaticCreatureRuntimeRestoreSummary { restored: known.len() as usize,
            ignored_unknown: (rs.len() - known.len()) as usize };
        if changed {
            Ok((summary, WorldModel {
                interactions: intents_on_live(m.interactions, cs2),
                revision: bumped(m.revision),
                ..with_creatures(m, cs2)
            }))
        } else {
            Ok((summary, WorldModel { static_creatures: cs2, ..m }))
        }
    }
}

proof fn lemma_records_error_prefix(cs: Creatures, rs: Seq<StaticCreatureRuntimeSnapshot>, n: int)
    requires
        0 <= n <= rs.len(),
        records_error(cs, rs.take(n)) is Some,
    ensures
        records_error(cs, rs) == records_error(cs, rs.take(n)),
    decreases rs.len() - n,
{
    if n < rs.len() {
        assert(rs.take(n + 1).drop_last() =~= rs.take(n));
        lemma_records_error_prefix(cs, rs, n + 1);
    } else {
        assert(rs.take(n) =~= rs);
    }
}

proof fn lemma_placement_error_prefix(players: Map<u64, Player>, occ: Set<(u16, u16, u8)>,
    known: Seq<StaticCreatureRuntimeSnapshot>, n: int)
    requires
        0 <= n <= known.len(),
        placement_error(players, occ, known.take(n)).0 is Some,
    ensures
        placement_error(players, occ, known).0 == placement_error(players, occ, known.take(n)).0,
    decreases known.len() - n,
{
    if n < known.len() {
        assert(known.take(n + 1).drop_last() =~= known.take(n));
        lemma_placement_error_prefix(players, occ, known, n + 1);
    } else {
        assert(known.take(n) =~= known);
    }
}

impl WorldState {
    /// The restart snapshot of every installed creature, in identifier order (see `snapshot_of`).
    pub fn static_creature_runtime_snapshot(&self) -> (r: Vec<StaticCreatureRuntimeSnapshot>)
        ensures
            r@ == runtime_snapshots(self@),
    {
        let ids = map_keys_u32(&self.static_creatures);
        proof { lemma_sorted_u32(ids@, self@.static_creatures.dom()); }
        let tick = self.tick;
        let mut out: Vec<StaticCreatureRuntimeSnapshot> = Vec::new();
        let mut i: usize = 0;
        while i < ids.len()
            invariant
                i <= ids@.len(),
                tick == self@.tick,
                forall|j: int| 0 <= j < ids@.len() ==> self@.static_creatures.contains_key(#[trigger] ids@[j]),
                out@.len() == i,
                forall|j: int| 0 <= j < i ==> #[trigger] out@[j] == snapshot_of(ids@[j], self@.static_creatures[ids@[j]], tick),
            decreases ids.len() - i,
        {
            let id = ids[i];
            let c = self.static_creatures.get(&id).unwrap();
            let reactivation = match c.reactivation_due_tick {
                Some(d) => Some(clamp_ticks(d.saturating_sub(tick))),
                None => None,
            };
            let melee = if c.active && c.melee_cooldown_ticks.is_some() {
                Some(clamp_ticks(c.next_melee_due_tick.saturating_sub(tick)))
            } else {
                None
            };
            out.push(StaticCreatureRuntimeSnapshot {
                id,
                position: c.entity.position,
                active: c.active,
                health_percent: c.health_percent,
                reactivation_remaining_seconds: reactivation,
                direct_melee_cooldown_remaining_ticks: melee,
                direct_melee_damage_sequence: c.direct_melee_damage_sequence,
            });
            i = i + 1;
        }
        proof { assert(out@ =~= runtime_snapshots(self@)); }
        out
    }

    /// Validates every record on its own, returning the known ones in order and the number of
    /// unknown ones.
    fn validate_records(&self, records: &[StaticCreatureRuntimeSnapshot])
        -> (r: Result<(Vec<StaticCreatureRuntimeSnapshot>, usize), CoreError>)
        ensures
            ({
                let cs = self@.static_creatures;
                match records_error(cs, records@) {
                    Some(e) => r == Err::<(Vec<StaticCreatureRuntimeSnapshot>, usize), CoreError>(e),
                    None => r is Ok && r->Ok_0.0@ == known_records(cs, records@)
                        && r->Ok_0.1 == records@.len() - known_records(cs, records@).len(),
                }
            }),
    {
        let ghost cs = self@.static_creatures;
        let mut seen: BTreeSet<u32> = BTreeSet::new();
        let mut known: Vec<StaticCreatureRuntimeSnapshot> = Vec::new();
        let mut ignored: usize = 0;
        let mut i: usize = 0;
        proof {
            assert(record_ids(records@.take(0)) =~= Set::<u32>::empty());
            assert(known_records(cs, records@.take(0)) =~= Seq::<StaticCreatureRuntimeSnapshot>::empty());
        }
        while i < records.len()
            invariant
                i <= records@.len(),
                cs == self@.static_creatures,
                records_error(cs, records@.take(i as int)) is None,
                seen@ == record_ids(records@.take(i as int)),
                known@ == known_records(cs, records@.take(i as int)),
                ignored == i - known@.len(),
                known@.len() <= i,
            decreases records.len() - i,
        {
            let r = records[i];
            proof {
                assert(records@.take(i + 1).drop_last() =~= records@.take(i as int));
                assert(records@.take(i + 1).last() == r);
            }
            if seen.contains(&r.id) {
                proof { lemma_records_error_prefix(cs, records@, i + 1); }
                return Err(CoreError::DuplicateStaticSpawnId(r.id));
            }
            if r.health_percent > 100 {
                proof { lemma_records_error_prefix(cs, records@, i + 1); }
                return Err(CoreError::InvalidStaticCreatureHealthPercent(r.health_percent));
            }
            seen.insert(r.id);
            proof {
                let p = records@.take(i as int);
                let q = records@.take(i + 1);
                assert forall|id: u32| record_ids(q).contains(id) <==> record_ids(p).insert(r.id).contains(id) by {
                    if record_ids(q).contains(id) {
                        let j = choose|j: int| 0 <= j < q.len() && #[trigger] q[j].id == id;
                        if j < i { assert(p[j].id == id); }
                    }
                    if record_ids(p).contains(id) {
                        let j = choose|j: int| 0 <= j < p.len() && #[trigger] p[j].id == id;
                        assert(q[j].id == id);
                    }
                    if id == r.id { assert(q[i as int].id == id); }
                }
                assert(seen@ =~= record_ids(q));
                reveal(Seq::filter);
            }
            match self.static_creatures.get(&r.id) {
                Some(c) => {
                    if let Some(e) = check_record(c, &r) {
                        proof { lemma_records_error_prefix(cs, records@, i + 1); }
                        return Err(e);
                    }
                    known.push(r);
                    proof { assert(known@ =~= known_records(cs, records@.take(i + 1))); }
                },
                None => {
                    ignored = ignored + 1;
                    proof { assert(known@ =~= known_records(cs, records@.take(i + 1))); }
                },
            }
            i = i + 1;
        }
        proof { assert(records@.take(records@.len() as int) =~= records@); }
        Ok((known, ignored))
    }

    /// The first active known record that a player or another creature blocks.
    fn check_placement(&self, known: &Vec<StaticCreatureRuntimeSnapshot>) -> (r: Option<CoreError>)
        ensures
            r == placement_error(self@.players, unrestored_occupancy(self@.static_creatures, known@), known@).0,
    {
        let ghost cs = self@.static_creatures;
        let mut restored_ids: BTreeSet<u32> = BTreeSet::new();
        let mut i: usize = 0;
        proof { assert(record_ids(known@.take(0)) =~= Set::<u32>::empty()); }
        while i < known.len()
            invariant
                i <= known@.len(),
                restored_ids@ == record_ids(known@.take(i as int)),
            decreases known.len() - i,
        {
            restored_ids.insert(known[i].id);
            proof {
                let p = known@.take(i as int);
                let q = known@.take(i + 1);
                assert forall|id: u32| record_ids(q).contains(id) <==> record_ids(p).insert(known@[i as int].id).contains(id) by {
                    if record_ids(q).contains(id) {
                        let j = choose|j: int| 0 <= j < q.len() && #[trigger] q[j].id == id;
                        if j < i { assert(p[j].id == id); }
                    }
                    if record_ids(p).contains(id) {
                        let j = choose|j: int| 0 <= j < p.len() && #[trigger] p[j].id == id;
                        assert(q[j].id == id);
                    }
                    if id == known@[i as int].id { assert(q[i as int].id == id); }
                }
                assert(restored_ids@ =~= record_ids(q));
            }
            i = i + 1;
        }
        proof { assert(known@.take(known@.len() as int) =~= known@); }
        let ids = map_keys_u32(&self.static_creatures);
        let mut occupied: BTreeSet<(u16, u16, u8)> = BTreeSet::new();
        let mut j: usize = 0;
        while j < ids.len()
            invariant
                j <= ids@.len(),
                cs == self@.static_creatures,
                restored_ids@ == record_ids(known@),
                forall|q: int| 0 <= q < ids@.len() ==> cs.contains_key(#[trigger] ids@[q]),
                forall|k: u32| #[trigger] cs.contains_key(k) ==> ids@.contains(k),
                forall|k: (u16, u16, u8)| #[trigger] occupied@.contains(k) <==> exists|q: int| 0 <= q < j
                    && cs[ids@[q]].active && !record_ids(known@).contains(ids@[q])
                    && #[trigger] position_key(cs[ids@[q]].entity.position) == k,
            decreases ids.len() - j,
        {
            let id = ids[j];
            let c = self.static_creatures.get(&id).unwrap();
            if c.active && !restored_ids.contains(&id) {
                occupied.insert(c.entity.position.key());
            }
            proof {
                assert forall|k: (u16, u16, u8)| #[trigger] occupied@.contains(k) <==> exists|q: int| 0 <= q < j + 1
                    && cs[ids@[q]].active && !record_ids(known@).contains(ids@[q])
                    && #[trigger] position_key(cs[ids@[q]].entity.position) == k by {
                    if exists|q: int| 0 <= q < j + 1 && cs[ids@[q]].active && !record_ids(known@).contains(ids@[q])
                        && #[trigger] position_key(cs[ids@[q]].entity.position) == k {
                        let q = choose|q: int| 0 <= q < j + 1 && cs[ids@[q]].active && !record_ids(known@).contains(ids@[q])
                            && #[trigger] position_key(cs[ids@[q]].entity.position) == k;
                        if q < j {
                            assert(exists|q2: int| 0 <= q2 < j && cs[ids@[q2]].active && !record_ids(known@).contains(ids@[q2])
                                && #[trigger] position_key(cs[ids@[q2]].entity.position) == k);
                        }
                    }
                }
            }
            j = j + 1;
        }
        proof {
            assert forall|k: (u16, u16, u8)| #[trigger] occupied@.contains(k) <==> unrestored_occupancy(cs, known@).contains(k) by {
                if unrestored_occupancy(cs, known@).contains(k) {
                    let id = choose|id: u32| cs.contains_key(id) && cs[id].active && !record_ids(known@).contains(id)
                        && #[trigger] position_key(cs[id].entity.position) == k;
                    let q = choose|q: int| 0 <= q < ids@.len() && ids@[q] == id;
                    assert(position_key(cs[ids@[q]].entity.position) == k);
                }
                if occupied@.contains(k) {
                    let q = choose|q: int| 0 <= q < ids@.len() && cs[ids@[q]].active && !record_ids(known@).contains(ids@[q])
                        && #[trigger] position_key(cs[ids@[q]].entity.position) == k;
                    assert(cs.contains_key(ids@[q]));
                }
            }
            assert(occupied@ =~= unrestored_occupancy(cs, known@));
        }
        let ghost occ0 = occupied@;
        let mut n: usize = 0;
        while n < known.len()
            invariant
                n <= known@.len(),
                occ0 == unrestored_occupancy(cs, known@),
                cs == self@.static_creatures,
                placement_error(self@.players, occ0, known@.take(n as int)) == (None::<CoreError>, occupied@),
            decreases known.len() - n,
        {
            let r = known[n];
            proof { assert(known@.take(n + 1).drop_last() =~= known@.take(n as int)); }
            if r.active {
                if self.is_player_occupied(r.position) {
                    proof { lemma_placement_error_prefix(self@.players, occ0, known@, n + 1); }
                    return Some(CoreError::PlayerOccupiesStaticCreaturePosition(r.position));
                }
                if occupied.contains(&r.position.key()) {
                    proof { lemma_placement_error_prefix(self@.players, occ0, known@, n + 1); }
                    return Some(CoreError::StaticCreatureOccupiesPosition(r.position));
                }
                occupied.insert(r.position.key());
            }
            n = n + 1;
        }
        proof { assert(known@.take(known@.len() as int) =~= known@); }
        None
    }

    /// Keeps only intents whose static target, if any, is an active creature.
    fn drop_intents_on_inactive(&mut self)
        ensures
            final(self)@ == (WorldModel { interactions: intents_on_live(old(self)@.interactions, old(self)@.static_creatures),
                ..old(self)@ }),
    {
        let ghost m = self@.interactions;
        let ghost cs = self@.static_creatures;
        let keys = map_keys(&self.player_interactions);
        let mut out: BTreeMap<u64, PlayerInteractionIntent> = BTreeMap::new();
        let mut i: usize = 0;
        proof {
            assert(out@ =~= Map::new(|k: u64| keys@.take(0).contains(k) && m.contains_key(k) && target_live(m[k], cs), |k: u64| m[k]));
        }
        while i < keys.len()
            invariant
                i <= keys@.len(),
                m == self@.interactions,
                cs == self@.static_creatures,
                forall|j: int| 0 <= j < keys@.len() ==> m.contains_key(#[trigger] keys@[j]),
                forall|k: u64| #[trigger] m.contains_key(k) ==> keys@.contains(k),
                out@ == Map::new(|k: u64| keys@.take(i as int).contains(k) && m.contains_key(k) && target_live(m[k], cs), |k: u64| m[k]),
            decreases keys.len() - i,
        {
            let k = keys[i];
            let it = *self.player_interactions.get(&k).unwrap();
            let live = match it.target_static_creature_id {
                Some(c) => match self.static_creatures.get(&c) { Some(rt) => rt.active, None => false },
                None => true,
            };
            if live {
                out.insert(k, it);
            }
            proof {
                assert(keys@.take(i + 1) =~= keys@.take(i as int).push(k));
                let t1 = keys@.take(i + 1);
                let t0 = keys@.take(i as int);
                assert forall|x: u64| t1.contains(x) <==> (t0.contains(x) || x == k) by {
                    if t1.contains(x) {
                        let q = choose|q: int| 0 <= q < t1.len() && t1[q] == x;
                        if q < i { assert(t0[q] == x); }
                    }
                    if t0.contains(x) {
                        let q = choose|q: int| 0 <= q < t0.len() && t0[q] == x;
                        assert(t1[q] == x);
                    }
                    if x == k { assert(t1[i as int] == x); }
                }
                assert(live == target_live(m[k], cs));
                assert(out@ =~= Map::new(|x: u64| keys@.take(i + 1).contains(x) && m.contains_key(x) && target_live(m[x], cs), |x: u64| m[x]));
            }
            i = i + 1;
        }
        proof {
            assert(keys@.take(keys@.len() as int) =~= keys@);
            assert(out@ =~= intents_on_live(m, cs));
        }
        self.player_interactions = out;
    }

    /// Restores runtime state for the installed creatures a list of restart records names;
    /// records for unknown identifiers are counted and ignored. Every record and every prospective
    /// position is validated before anything changes; restored creatures lose their targets.
    pub fn restore_static_creature_runtime(&mut self, records: &[StaticCreatureRuntimeSnapshot])
        -> (r: Result<StaticCreatureRuntimeRestoreSummary, CoreError>)
        ensures
            creatures_sound(old(self)@) ==> creatures_sound(final(self)@),
            match restore_result(old(self)@, records@) {
                Err(e) => r == Err::<StaticCreatureRuntimeRestoreSummary, CoreError>(e) && final(self)@ == old(self)@,
                Ok((summary, w)) => r == Ok::<StaticCreatureRuntimeRestoreSummary, CoreError>(summary) && final(self)@ == w,
            },
    {
        let ghost m = self@;
        let (known, ignored) = match self.validate_records(records) {
            Ok(pair) => pair,
            Err(e) => { return Err(e); },
        };
        if let Some(e) = self.check_placement(&known) {
            return Err(e);
        }
        let tick = self.tick;
        let mut changed = false;
        let mut i: usize = 0;
        proof { assert(known@.take(0) =~= Seq::<StaticCreatureRuntimeSnapshot>::empty()); }
        while i < known.len()
            invariant
                i <= known@.len(),
                tick == m.tick,
                self@ == (WorldModel { static_creatures: self@.static_creatures, ..m }),
                apply_records(m.static_creatures, known@.take(i as int), tick) == (self@.static_creatures, changed),
            decreases known.len() - i,
        {
            let r = known[i];
            proof { assert(known@.take(i + 1).drop_last() =~= known@.take(i as int)); }
            if self.static_creatures.contains_key(&r.id) {
                let ghost before = self@.static_creatures;
                let mut rt = self.take_creature(r.id);
                let melee_due = match r.direct_melee_cooldown_remaining_ticks {
                    Some(x) => tick.saturating_add(x as u64),
                    None => tick,
                };
                let due = match r.reactivation_remaining_seconds {
                    Some(x) => Some(tick.saturating_add(x as u64)),
                    None => None,
                };
                if rt.entity.position != r.position || rt.active != r.active || rt.health_percent != r.health_percent
                    || rt.target_player_id.is_some() || !opt_u64_eq(rt.reactivation_due_tick, due)
                    || rt.next_melee_due_tick != melee_due || rt.direct_melee_damage_sequence != r.direct_melee_damage_sequence {
                    changed = true;
                }
                rt.entity.position = r.position;
                rt.active = r.active;
                rt.health_percent = r.health_percent;
                rt.target_player_id = None;
                rt.direct_melee_damage_sequence = r.direct_melee_damage_sequence;
                rt.next_melee_due_tick = melee_due;
                if r.active {
                    rt.activated_at_tick = tick;
                    rt.inactive_since_tick = None;
                    rt.reactivation_due_tick = None;
                } else {
                    rt.inactive_since_tick = Some(tick);
                    rt.reactivation_due_tick = due;
                }
                let ghost c2 = rt;
                self.put_creature(r.id, rt);
                proof {
                    assert(c2 == restored(before[r.id], r, tick));
                    assert(self@.static_creatures =~= before.insert(r.id, c2));
                }
            }
            i = i + 1;
        }
        proof { assert(known@.take(known@.len() as int) =~= known@); }
        if changed {
            self.refresh_static_creature_occupancy();
            self.drop_intents_on_inactive();
            self.mark_changed();
        }
        proof {
            if creatures_sound(m) {
                crate::world::static_laws::law_restore_keeps_soundness(m, records@);
            }
        }
        Ok(StaticCreatureRuntimeRestoreSummary { restored: known.len(), ignored_unknown: ignored })
    }
}

/// A tick distance clamped to `u32`.
fn clamp_ticks(v: u64) -> (r: u32)
    ensures
        r == clamp_u32(v as int),
{
    if v > u32::MAX as u64 { u32::MAX } else { v as u32 }
}

fn opt_u64_eq(a: Option<u64>, b: Option<u64>) -> (r: bool)
    ensures
        r == (a == b),
{
    match (a, b) {
        (Some(x), Some(y)) => x == y,
        (None, None) => true,
        _ => false,
    }
}

/// Why one record cannot be restored onto an installed creature.
fn check_record(c: &StaticCreatureRuntime, r: &StaticCreatureRuntimeSnapshot) -> (e: Option<CoreError>)
    ensures
        e == record_error(*c, *r),
{
    if r.active && r.reactivation_remaining_seconds.is_some() {
        return Some(CoreError::InvalidStaticCreatureReactivationDelay { id: r.id,
            remaining_seconds: r.reactivation_remaining_seconds.unwrap(), interval_seconds: c.respawn_interval_seconds });
    }
    if let Some(s) = r.reactivation_remaining_seconds {
        if c.respawn_interval_seconds == 0 || s > c.respawn_interval_seconds {
            return Some(CoreError::InvalidStaticCreatureReactivationDelay { id: r.id, remaining_seconds: s,
                interval_seconds: c.respawn_interval_seconds });
        }
    }
    if r.direct_melee_cooldown_remaining_ticks.is_some() && (!r.active || c.melee_cooldown_ticks.is_none()) {
        return Some(CoreError::InvalidStaticCreatureMeleeCooldownDelay { id: r.id,
            remaining_ticks: r.direct_melee_cooldown_remaining_ticks.unwrap(),
            cooldown_ticks: match c.melee_cooldown_ticks { Some(v) => v, None => 0 } });
    }
    if let (Some(rt), Some(cd)) = (r.direct_melee_cooldown_remaining_ticks, c.melee_cooldown_ticks) {
        if rt as u64 > cd {
            return Some(CoreError::InvalidStaticCreatureMeleeCooldownDelay { id: r.id, remaining_ticks: rt, cooldown_ticks: cd });
        }
    }
    None
}


/// The result and the world after an explicit cardinal step of creature `id`.
pub open spec fn move_result(m: WorldModel, id: u32, direction: CardinalDirection, map: WorldMapView)
    -> (Result<(Position, Position), CoreError>, WorldModel)
{
    if !m.static_creatures.contains_key(id) {
        (Err(CoreError::UnknownStaticCreature(id)), m)
    } else if !m.static_creatures[id].active {
        (Err(CoreError::InactiveStaticCreature(id)), m)
    } else {
        let c = m.static_creatures[id];
        let from = c.entity.position;
        match spec_step(from, direction) {
            None => (Err(CoreError::MapBoundary { position: from }), m),
            Some(to) => if !walkable(map, to) {
                (Err(CoreError::StaticCreatureMovementBlocked(to)), m)
            } else if position_taken(m.players, to) {
                (Err(CoreError::PlayerOccupiesStaticCreaturePosition(to)), m)
            } else if creature_blocks(m.static_creatures, id, to) {
                (Err(CoreError::StaticCreatureOccupiesPosition(to)), m)
            } else {
                (Ok((from, to)), WorldModel { revision: bumped(m.revision), ..with_creatures(m,
                    m.static_creatures.insert(id, StaticCreatureRuntime {
                        entity: FeTfsStaticEntity { position: to, ..c.entity }, ..c })) })
            },
        }
    }
}

/// The step toward the target along one axis, if the target is not level with the source on it.
pub open spec fn x_direction(s: Position, t: Position) -> Option<CardinalDirection> {
    if t.x < s.x { Some(CardinalDirection::West) } else if t.x > s.x { Some(CardinalDirection::East) } else { None }
}

pub open spec fn y_direction(s: Position, t: Position) -> Option<CardinalDirection> {
    if t.y < s.y { Some(CardinalDirection::North) } else if t.y > s.y { Some(CardinalDirection::South) } else { None }
}

/// A tile a creature may step onto: walkable, free of players and of other active creatures.
pub open spec fn step_free(m: WorldModel, id: u32, map: WorldMapView, p: Position) -> bool {
    walkable(map, p) && !position_taken(m.players, p) && !creature_blocks(m.static_creatures, id, p)
}

/// A candidate direction is usable from `s`.
pub open spec fn usable(m: WorldModel, id: u32, map: WorldMapView, s: Position, d: Option<CardinalDirection>) -> bool {
    d is Some && spec_step(s, d->0) is Some && step_free(m, id, map, spec_step(s, d->0)->0)
}

/// The direct step toward the target: the axis with the larger distance first.
pub open spec fn direct_step(m: WorldModel, id: u32, map: WorldMapView, s: Position, t: Position) -> Option<CardinalDirection> {
    let (a, b) = if diff(s.x as int, t.x as int) >= diff(s.y as int, t.y as int) {
        (x_direction(s, t), y_direction(s, t))
    } else {
        (y_direction(s, t), x_direction(s, t))
    };
    if usable(m, id, map, s, a) { a } else if usable(m, id, map, s, b) { b } else { None }
}

/// A tile a detour may pass: walkable, with no player on it, and not recorded as held by a static
/// creature other than the one at the detour's source `s`.
pub open spec fn detour_free(m: WorldModel, map: WorldMapView, s: Position, p: Position) -> bool {
    &&& walkable(map, p)
    &&& !position_taken(m.players, p)
    &&& !m.static_occupied.remove(position_key(s)).contains(position_key(p))
}

/// One probe of a breadth-first detour from entry `e` in direction `d`: the visited tiles and the
/// next layer afterwards, or the first direction of the detour when the probed tile is next to
/// the target `t`.
pub open spec fn detour_probe(m: WorldModel, map: WorldMapView, s: Position, t: Position,
    st: (Set<(u16, u16, u8)>, Seq<(Position, Option<CardinalDirection>)>), e: (Position, Option<CardinalDirection>),
    d: CardinalDirection) -> Result<(Set<(u16, u16, u8)>, Seq<(Position, Option<CardinalDirection>)>), CardinalDirection>
{
    match spec_step(e.0, d) {
        None => Ok(st),
        Some(dest) => if st.0.contains(position_key(dest)) {
            Ok(st)
        } else if !detour_free(m, map, s, dest) {
            Ok((st.0.insert(position_key(dest)), st.1))
        } else {
            let first = match e.1 { Some(f) => f, None => d };
            if spec_adjacent(dest, t) {
                Err(first)
            } else {
                Ok((st.0.insert(position_key(dest)), st.1.push((dest, Some(first)))))
            }
        },
    }
}

/// The probes of entry `e` in the first `k` directions (north, east, south, west).
pub open spec fn detour_probes(m: WorldModel, map: WorldMapView, s: Position, t: Position,
    st: (Set<(u16, u16, u8)>, Seq<(Position, Option<CardinalDirection>)>), e: (Position, Option<CardinalDirection>),
    k: int) -> Result<(Set<(u16, u16, u8)>, Seq<(Position, Option<CardinalDirection>)>), CardinalDirection>
    decreases k,
{
    if k <= 0 {
        Ok(st)
    } else {
        match detour_probes(m, map, s, t, st, e, k - 1) {
            Err(f) => Err(f),
            Ok(st2) => detour_probe(m, map, s, t, st2, e, direction_at(k - 1)),
        }
    }
}

/// The probes of the first `n` entries of a layer.
pub open spec fn detour_expand(m: WorldModel, map: WorldMapView, s: Position, t: Position,
    st: (Set<(u16, u16, u8)>, Seq<(Position, Option<CardinalDirection>)>), layer: Seq<(Position, Option<CardinalDirection>)>,
    n: int) -> Result<(Set<(u16, u16, u8)>, Seq<(Position, Option<CardinalDirection>)>), CardinalDirection>
    decreases n,
{
    if n <= 0 {
        Ok(st)
    } else {
        match detour_expand(m, map, s, t, st, layer, n - 1) {
            Err(f) => Err(f),
            Ok(st2) => detour_probes(m, map, s, t, st2, layer[n - 1], 4),
        }
    }
}

/// A breadth-first detour from `layer` with `left` layers still to expand.
pub open spec fn detour_search(m: WorldModel, map: WorldMapView, s: Position, t: Position,
    visited: Set<(u16, u16, u8)>, layer: Seq<(Position, Option<CardinalDirection>)>, left: nat) -> Option<CardinalDirection>
    decreases left,
{
    if left == 0 {
        None
    } else {
        match detour_expand(m, map, s, t, (visited, Seq::empty()), layer, layer.len() as int) {
            Err(f) => Some(f),
            Ok((v2, next)) => detour_search(m, map, s, t, v2, next, (left - 1) as nat),
        }
    }
}

/// The first direction of the breadth-first detour of at most `max` tiles from `s` to a tile next
/// to `t`, exploring north, east, south and west in turn; `None` when there is none.
pub open spec fn detour_direction(m: WorldModel, map: WorldMapView, s: Position, t: Position, max: u8) -> Option<CardinalDirection> {
    detour_search(m, map, s, t, set![position_key(s)], seq![(s, None::<CardinalDirection>)], max as nat)
}

proof fn lemma_detour_probes_found_sticks(m: WorldModel, map: WorldMapView, s: Position, t: Position,
    st: (Set<(u16, u16, u8)>, Seq<(Position, Option<CardinalDirection>)>), e: (Position, Option<CardinalDirection>), k: int, n: int)
    requires
        0 <= k <= n,
        detour_probes(m, map, s, t, st, e, k) is Err,
    ensures
        detour_probes(m, map, s, t, st, e, n) == detour_probes(m, map, s, t, st, e, k),
    decreases n - k,
{
    if n > k {
        lemma_detour_probes_found_sticks(m, map, s, t, st, e, k, n - 1);
    }
}

proof fn lemma_detour_expand_found_sticks(m: WorldModel, map: WorldMapView, s: Position, t: Position,
    st: (Set<(u16, u16, u8)>, Seq<(Position, Option<CardinalDirection>)>), layer: Seq<(Position, Option<CardinalDirection>)>, k: int, n: int)
    requires
        0 <= k <= n,
        detour_expand(m, map, s, t, st, layer, k) is Err,
    ensures
        detour_expand(m, map, s, t, st, layer, n) == detour_expand(m, map, s, t, st, layer, k),
    decreases n - k,
{
    if n > k {
        lemma_detour_expand_found_sticks(m, map, s, t, st, layer, k, n - 1);
    }
}

/// The outcome of moving toward target `t` in direction `d`.
pub open spec fn moved_outcome(m: WorldModel, id: u32, t: u64, d: CardinalDirection, map: WorldMapView)
    -> (Result<StaticCreatureTargetStepOutcome, CoreError>, WorldModel)
{
    let (r, w) = move_result(m, id, d, map);
    match r {
        Ok((from, to)) => (Ok(StaticCreatureTargetStepOutcome::Moved { target_player_id: t, direction: d, from, to }), w),
        Err(e) => (Err(e), w),
    }
}

/// The cardinal direction of a rotation index.
pub open spec fn direction_at(i: int) -> CardinalDirection {
    if i == 0 { CardinalDirection::North } else if i == 1 { CardinalDirection::East }
    else if i == 2 { CardinalDirection::South } else { CardinalDirection::West }
}

/// The direction tried at `step` by creature `id` at `tick`.
pub open spec fn rotated(id: u32, tick: u64, step: int) -> CardinalDirection {
    direction_at(((id % 4) as int + (tick % 4) as int + step) % 4)
}

/// The first safe step a planning pass picks for a creature at `s`, trying from `step` on.
pub open spec fn pick_from(map: WorldMapView, players: Map<u64, Player>, occ: Set<(u16, u16, u8)>, s: Position,
    id: u32, tick: u64, step: int) -> Option<(CardinalDirection, Position)>
    decreases 4 - step,
{
    if step >= 4 || step < 0 {
        None
    } else {
        let d = rotated(id, tick, step);
        match spec_step(s, d) {
            Some(p) => if walkable(map, p) && !position_taken(players, p) && !occ.contains(position_key(p)) {
                Some((d, p))
            } else {
                pick_from(map, players, occ, s, id, tick, step + 1)
            },
            None => pick_from(map, players, occ, s, id, tick, step + 1),
        }
    }
}

/// Planning state: taken positions, decisions so far, skipped creatures.
pub type PlanState = (Set<(u16, u16, u8)>, Seq<StaticCreatureMoveDecision>, int);

pub open spec fn plan_one(st: PlanState, m: WorldModel, map: WorldMapView, id: u32) -> PlanState {
    let c = m.static_creatures[id];
    let (occ, ds, sk) = st;
    if !c.active {
        st
    } else {
        let s = c.entity.position;
        let occ1 = occ.remove(position_key(s));
        match pick_from(map, m.players, occ1, s, id, m.tick, 0) {
            Some((d, p)) => (occ1.insert(position_key(p)), ds.push(StaticCreatureMoveDecision { creature_id: id, direction: d }), sk),
            None => (occ1.insert(position_key(s)), ds, sk + 1),
        }
    }
}

pub open spec fn plan_run(st: PlanState, m: WorldModel, map: WorldMapView, ids: Seq<u32>) -> PlanState
    decreases ids.len(),
{
    if ids.len() == 0 { st } else { plan_one(plan_run(st, m, map, ids.drop_last()), m, map, ids.last()) }
}

/// The plan of a policy over the creatures in identifier order.
pub open spec fn planned(m: WorldModel, map: WorldMapView) -> PlanState {
    plan_run((m.static_occupied, Seq::empty(), 0), m, map, sorted_u32(m.static_creatures.dom()))
}

/// Applying decisions one after another, stopping at the first refusal.
pub open spec fn apply_moves(m: WorldModel, ds: Seq<StaticCreatureMoveDecision>, map: WorldMapView)
    -> (Option<CoreError>, WorldModel)
    decreases ds.len(),
{
    if ds.len() == 0 {
        (None, m)
    } else {
        let (e, w) = apply_moves(m, ds.drop_last(), map);
        if e is Some {
            (e, w)
        } else {
            let (r, w2) = move_result(w, ds.last().creature_id, ds.last().direction, map);
            match r {
                Ok(_) => (None, w2),
                Err(err) => (Some(err), w2),
            }
        }
    }
}

fn direction_of(i: u64) -> (d: CardinalDirection)
    requires
        i < 4,
    ensures
        d == direction_at(i as int),
{
    if i == 0 { CardinalDirection::North } else if i == 1 { CardinalDirection::East }
    else if i == 2 { CardinalDirection::South } else { CardinalDirection::West }
}

impl WorldState {
    /// Moves a creature one step as `move_static_creature_cardinal` does.
    fn move_creature(&mut self, id: u32, direction: CardinalDirection, world_map: &WorldMap)
        -> (r: Result<(Position, Position), CoreError>)
        ensures
            creatures_sound(old(self)@) ==> creatures_sound(final(self)@),
            (r, final(self)@) == move_result(old(self)@, id, direction, world_map@),
    {
        self.move_static_creature_cardinal(id, direction, world_map)
    }

    /// The first direction of a breadth-first detour of at most `max_detour_steps` tiles from
    /// `source` to a tile adjacent to `target`, exploring north, east, south, west in order.
    fn static_creature_detour_direction(&self, source: Position, target: Position, world_map: &WorldMap,
        max_detour_steps: u8) -> (r: Option<CardinalDirection>)
        ensures
            r == detour_direction(self@, world_map@, source, target, max_detour_steps),
    {
        if max_detour_steps == 0 {
            return None;
        }
        let ghost wm = world_map@;
        let ghost full = detour_direction(self@, wm, source, target, max_detour_steps);
        let mut occupied = self.static_occupied_positions.clone();
        occupied.remove(&source.key());
        let ghost occ = self@.static_occupied.remove(position_key(source));
        let mut visited: BTreeSet<(u16, u16, u8)> = BTreeSet::new();
        visited.insert(source.key());
        let mut layer: Vec<(Position, Option<CardinalDirection>)> = Vec::new();
        layer.push((source, None));
        proof {
            assert(visited@ =~= set![position_key(source)]);
            assert(layer@ =~= seq![(source, None::<CardinalDirection>)]);
        }
        let mut distance: u8 = 0;
        while distance < max_detour_steps
            invariant
                distance <= max_detour_steps,
                wm == world_map@,
                occupied@ == occ,
                occ == self@.static_occupied.remove(position_key(source)),
                full == detour_direction(self@, wm, source, target, max_detour_steps),
                full == detour_search(self@, wm, source, target, visited@, layer@, (max_detour_steps - distance) as nat),
            decreases max_detour_steps - distance,
        {
            let ghost v0 = visited@;
            let ghost layer0 = layer@;
            let mut next: Vec<(Position, Option<CardinalDirection>)> = Vec::new();
            let mut i: usize = 0;
            while i < layer.len()
                invariant
                    i <= layer@.len(),
                    layer@ == layer0,
                    distance < max_detour_steps,
                    wm == world_map@,
                    occupied@ == occ,
                    occ == self@.static_occupied.remove(position_key(source)),
                    full == detour_search(self@, wm, source, target, v0, layer0, (max_detour_steps - distance) as nat),
                    full == detour_direction(self@, wm, source, target, max_detour_steps),
                    detour_expand(self@, wm, source, target, (v0, Seq::empty()), layer0, i as int)
                        == Ok::<(Set<(u16, u16, u8)>, Seq<(Position, Option<CardinalDirection>)>), CardinalDirection>((visited@, next@)),
                decreases layer.len() - i,
            {
                let (position, first) = layer[i];
                let ghost e = layer@[i as int];
                let ghost vi = visited@;
                let ghost ni = next@;
                let mut k: u64 = 0;
                while k < 4
                    invariant
                        k <= 4,
                        i < layer@.len(),
                        layer@ == layer0,
                        e == layer0[i as int],
                        e == (position, first),
                        distance < max_detour_steps,
                        wm == world_map@,
                        occupied@ == occ,
                        occ == self@.static_occupied.remove(position_key(source)),
                        full == detour_search(self@, wm, source, target, v0, layer0, (max_detour_steps - distance) as nat),
                        full == detour_direction(self@, wm, source, target, max_detour_steps),
                        detour_expand(self@, wm, source, target, (v0, Seq::empty()), layer0, i as int)
                            == Ok::<(Set<(u16, u16, u8)>, Seq<(Position, Option<CardinalDirection>)>), CardinalDirection>((vi, ni)),
                        detour_probes(self@, wm, source, target, (vi, ni), e, k as int)
                            == Ok::<(Set<(u16, u16, u8)>, Seq<(Position, Option<CardinalDirection>)>), CardinalDirection>((visited@, next@)),
                    decreases 4 - k,
                {
                    let direction = direction_of(k);
                    let ghost before = (visited@, next@);
                    k = k + 1;
                    let destination = match position.step(direction) {
                        Ok(p) => p,
                        Err(_) => { continue; },
                    };
                    let fresh = visited.insert(destination.key());
                    if !fresh || !world_map.is_walkable(destination) || self.is_player_occupied(destination)
                        || occupied.contains(&destination.key()) {
                        proof {
                            if !fresh {
                                assert(before.0.insert(position_key(destination)) =~= before.0);
                            }
                            assert(detour_probe(self@, wm, source, target, before, e, direction)
                                == Ok::<(Set<(u16, u16, u8)>, Seq<(Position, Option<CardinalDirection>)>), CardinalDirection>((visited@, next@)));
                        }
                        continue;
                    }
                    let first_direction = match first { Some(d) => d, None => direction };
                    if destination.is_adjacent_to(target) {
                        proof {
                            assert(detour_probes(self@, wm, source, target, (vi, ni), e, k as int)
                                == Err::<(Set<(u16, u16, u8)>, Seq<(Position, Option<CardinalDirection>)>), CardinalDirection>(first_direction));
                            lemma_detour_probes_found_sticks(self@, wm, source, target, (vi, ni), e, k as int, 4);
                            assert(detour_expand(self@, wm, source, target, (v0, Seq::empty()), layer0, i + 1)
                                == Err::<(Set<(u16, u16, u8)>, Seq<(Position, Option<CardinalDirection>)>), CardinalDirection>(first_direction));
                            lemma_detour_expand_found_sticks(self@, wm, source, target, (v0, Seq::empty()), layer0, i + 1,
                                layer0.len() as int);
                            let left = (max_detour_steps - distance) as nat;
                            assert(left > 0);
                            assert(detour_search(self@, wm, source, target, v0, layer0, left) == Some(first_direction));
                        }
                        return Some(first_direction);
                    }
                    next.push((destination, Some(first_direction)));
                }
                i = i + 1;
            }
            layer = next;
            distance = distance + 1;
        }
        None
    }

    /// Attempts at most one step of an active creature toward its selected living target: the
    /// direct step along the axis with the larger distance first, otherwise the first step of a
    /// breadth-first detour within `max_detour_steps`.
    pub fn step_static_creature_toward_target_with_detour(&mut self, creature_id: u32, world_map: &WorldMap,
        max_detour_steps: u8) -> (r: Result<StaticCreatureTargetStepOutcome, CoreError>)
        ensures
            creatures_sound(old(self)@) ==> creatures_sound(final(self)@),
            ({
                let m = old(self)@;
                if !m.static_creatures.contains_key(creature_id) {
                    r == Err::<StaticCreatureTargetStepOutcome, CoreError>(CoreError::UnknownStaticCreature(creature_id))
                        && final(self)@ == m
                } else if !m.static_creatures[creature_id].active {
                    r == Err::<StaticCreatureTargetStepOutcome, CoreError>(CoreError::InactiveStaticCreature(creature_id))
                        && final(self)@ == m
                } else {
                    let c = m.static_creatures[creature_id];
                    let s = c.entity.position;
                    if c.is_npc {
                        r == Ok::<StaticCreatureTargetStepOutcome, CoreError>(StaticCreatureTargetStepOutcome::NoTarget)
                            && final(self)@ == untargeted(m, creature_id)
                    } else if c.target_player_id is None {
                        r == Ok::<StaticCreatureTargetStepOutcome, CoreError>(StaticCreatureTargetStepOutcome::NoTarget)
                            && final(self)@ == m
                    } else {
                        let t = c.target_player_id->0;
                        if !m.players.contains_key(t) || is_dead(m, t) {
                            r == Ok::<StaticCreatureTargetStepOutcome, CoreError>(StaticCreatureTargetStepOutcome::NoTarget)
                                && final(self)@ == (WorldModel { revision: bumped(m.revision), ..with_creature(m, creature_id,
                                    StaticCreatureRuntime { target_player_id: None, ..c }) })
                        } else {
                            let tp = m.players[t].position;
                            if spec_adjacent(s, tp) {
                                r == Ok::<StaticCreatureTargetStepOutcome, CoreError>(
                                    StaticCreatureTargetStepOutcome::AlreadyAdjacent { target_player_id: t }) && final(self)@ == m
                            } else if s.z != tp.z {
                                r == Ok::<StaticCreatureTargetStepOutcome, CoreError>(
                                    StaticCreatureTargetStepOutcome::Blocked { target_player_id: t }) && final(self)@ == m
                            } else if direct_step(m, creature_id, world_map@, s, tp) is Some {
                                (r, final(self)@) == moved_outcome(m, creature_id, t,
                                    direct_step(m, creature_id, world_map@, s, tp)->0, world_map@)
                            } else {
                                match detour_direction(m, world_map@, s, tp, max_detour_steps) {
                                    None => r == Ok::<StaticCreatureTargetStepOutcome, CoreError>(
                                        StaticCreatureTargetStepOutcome::Blocked { target_player_id: t }) && final(self)@ == m,
                                    Some(d) => (r, final(self)@) == moved_outcome(m, creature_id, t, d, world_map@),
                                }
                            }
                        }
                    }
                }
            }),
    {
        let ghost m = self@;
        let (source, target, is_npc) = match self.static_creatures.get(&creature_id) {
            None => { return Err(CoreError::UnknownStaticCreature(creature_id)); },
            Some(c) => {
                if !c.active {
                    return Err(CoreError::InactiveStaticCreature(creature_id));
                }
                (c.entity.position, c.target_player_id, c.is_npc)
            },
        };
        if is_npc {
            self.clear_static_creature_target(creature_id);
            return Ok(StaticCreatureTargetStepOutcome::NoTarget);
        }
        let target_player_id = match target {
            Some(t) => t,
            None => { return Ok(StaticCreatureTargetStepOutcome::NoTarget); },
        };
        let dead = match self.player_respawn_states.get(&target_player_id) { Some(s) => s.dead, None => false };
        let target_position = match self.players.get(&target_player_id) {
            Some(p) => if dead { None } else { Some(p.position) },
            None => None,
        };
        let target_position = match target_position {
            Some(p) => p,
            None => {
                let mut runtime = self.take_creature(creature_id);
                runtime.target_player_id = None;
                let ghost c2 = runtime;
                self.put_creature(creature_id, runtime);
                proof { assert(self@.static_creatures =~= m.static_creatures.insert(creature_id, c2)); }
                self.mark_changed();
                return Ok(StaticCreatureTargetStepOutcome::NoTarget);
            },
        };
        if source.is_adjacent_to(target_position) {
            return Ok(StaticCreatureTargetStepOutcome::AlreadyAdjacent { target_player_id });
        }
        if source.z != target_position.z {
            return Ok(StaticCreatureTargetStepOutcome::Blocked { target_player_id });
        }
        let x_distance = abs_diff_u16(source.x, target_position.x);
        let y_distance = abs_diff_u16(source.y, target_position.y);
        let x_dir = if target_position.x < source.x { Some(CardinalDirection::West) }
            else if target_position.x > source.x { Some(CardinalDirection::East) } else { None };
        let y_dir = if target_position.y < source.y { Some(CardinalDirection::North) }
            else if target_position.y > source.y { Some(CardinalDirection::South) } else { None };
        let (first, second) = if x_distance >= y_distance { (x_dir, y_dir) } else { (y_dir, x_dir) };
        let mut chosen: Option<CardinalDirection> = None;
        if let Some(d) = first {
            if self.step_is_free(creature_id, source, d, world_map) {
                chosen = Some(d);
            }
        }
        if chosen.is_none() {
            if let Some(d) = second {
                if self.step_is_free(creature_id, source, d, world_map) {
                    chosen = Some(d);
                }
            }
        }
        proof { assert(chosen == direct_step(m, creature_id, world_map@, source, target_position)); }
        let direction = match chosen {
            Some(d) => d,
            None => match self.static_creature_detour_direction(source, target_position, world_map, max_detour_steps) {
                Some(d) => d,
                None => { return Ok(StaticCreatureTargetStepOutcome::Blocked { target_player_id }); },
            },
        };
        let res = self.move_creature(creature_id, direction, world_map);
        let out = match res {
            Ok((from, to)) => Ok(StaticCreatureTargetStepOutcome::Moved { target_player_id, direction, from, to }),
            Err(e) => Err(e),
        };
        proof { assert((out, self@) == moved_outcome(m, creature_id, target_player_id, direction, world_map@)); }
        out
    }

    /// Whether creature `id` may step from `s` in direction `d`.
    fn step_is_free(&self, id: u32, s: Position, d: CardinalDirection, world_map: &WorldMap) -> (r: bool)
        ensures
            r == usable(self@, id, world_map@, s, Some(d)),
    {
        match s.step(d) {
            Ok(p) => world_map.is_walkable(p) && !self.is_player_occupied(p) && !self.other_creature_at(id, p),
            Err(_) => false,
        }
    }

    /// The direct step toward the target only, without a detour.
    pub fn step_static_creature_toward_target(&mut self, creature_id: u32, world_map: &WorldMap)
        -> (r: Result<StaticCreatureTargetStepOutcome, CoreError>)
        ensures
            creatures_sound(old(self)@) ==> creatures_sound(final(self)@),
            ({
                let m = old(self)@;
                if !m.static_creatures.contains_key(creature_id) {
                    r == Err::<StaticCreatureTargetStepOutcome, CoreError>(CoreError::UnknownStaticCreature(creature_id))
                        && final(self)@ == m
                } else if !m.static_creatures[creature_id].active {
                    r == Err::<StaticCreatureTargetStepOutcome, CoreError>(CoreError::InactiveStaticCreature(creature_id))
                        && final(self)@ == m
                } else {
                    let c = m.static_creatures[creature_id];
                    let s = c.entity.position;
                    if c.is_npc {
                        r == Ok::<StaticCreatureTargetStepOutcome, CoreError>(StaticCreatureTargetStepOutcome::NoTarget)
                            && final(self)@ == untargeted(m, creature_id)
                    } else if c.target_player_id is None {
                        r == Ok::<StaticCreatureTargetStepOutcome, CoreError>(StaticCreatureTargetStepOutcome::NoTarget)
                            && final(self)@ == m
                    } else {
                        let t = c.target_player_id->0;
                        if !m.players.contains_key(t) || is_dead(m, t) {
                            r == Ok::<StaticCreatureTargetStepOutcome, CoreError>(StaticCreatureTargetStepOutcome::NoTarget)
                                && final(self)@ == (WorldModel { revision: bumped(m.revision), ..with_creature(m, creature_id,
                                    StaticCreatureRuntime { target_player_id: None, ..c }) })
                        } else {
                            let tp = m.players[t].position;
                            if spec_adjacent(s, tp) {
                                r == Ok::<StaticCreatureTargetStepOutcome, CoreError>(
                                    StaticCreatureTargetStepOutcome::AlreadyAdjacent { target_player_id: t }) && final(self)@ == m
                            } else if s.z != tp.z || direct_step(m, creature_id, world_map@, s, tp) is None {
                                r == Ok::<StaticCreatureTargetStepOutcome, CoreError>(
                                    StaticCreatureTargetStepOutcome::Blocked { target_player_id: t }) && final(self)@ == m
                            } else {
                                (r, final(self)@) == moved_outcome(m, creature_id, t,
                                    direct_step(m, creature_id, world_map@, s, tp)->0, world_map@)
                            }
                        }
                    }
                }
            }),
    {
        self.step_static_creature_toward_target_with_detour(creature_id, world_map, 0)
    }

    /// Selects safe adjacent steps without changing anything: each active creature, in identifier
    /// order, tries the four directions rotated by its identifier and the tick, avoiding players
    /// and the positions other creatures hold or were planned to take.
    pub fn plan_static_creature_moves(&self, policy: StaticCreatureDecisionPolicy, world_map: &WorldMap)
        -> (r: StaticCreatureDecisionBatch)
        ensures
            policy == StaticCreatureDecisionPolicy::Disabled ==> r.decisions@.len() == 0 && r.skipped == 0,
            policy != StaticCreatureDecisionPolicy::Disabled ==> r.decisions@ == planned(self@, world_map@).1
                && r.skipped == planned(self@, world_map@).2,
    {
        if policy == StaticCreatureDecisionPolicy::Disabled {
            return StaticCreatureDecisionBatch::default();
        }
        let ids = map_keys_u32(&self.static_creatures);
        proof { lemma_sorted_u32(ids@, self@.static_creatures.dom()); }
        let mut occupied = self.static_occupied_positions.clone();
        let mut decisions: Vec<StaticCreatureMoveDecision> = Vec::new();
        let mut skipped: usize = 0;
        let tick = self.tick;
        let mut i: usize = 0;
        while i < ids.len()
            invariant
                i <= ids@.len(),
                tick == self@.tick,
                forall|j: int| 0 <= j < ids@.len() ==> self@.static_creatures.contains_key(#[trigger] ids@[j]),
                plan_run((self@.static_occupied, Seq::empty(), 0), self@, world_map@, ids@.take(i as int))
                    == (occupied@, decisions@, skipped as int),
                skipped <= i,
            decreases ids.len() - i,
        {
            let id = ids[i];
            proof { assert(ids@.take(i + 1).drop_last() =~= ids@.take(i as int)); }
            let c = self.static_creatures.get(&id).unwrap();
            if c.active {
                let source = c.entity.position;
                occupied.remove(&source.key());
                let base: u64 = (id as u64 % 4 + tick % 4) % 4;
                let mut step: u64 = 0;
                let mut selected: Option<(CardinalDirection, Position)> = None;
                let ghost occ1 = occupied@;
                while step < 4
                    invariant
                        step <= 4,
                        occupied@ == occ1,
                        base == ((id % 4) as int + (tick % 4) as int) % 4,
                        selected is None ==> pick_from(world_map@, self@.players, occ1, source, id, tick, 0)
                            == pick_from(world_map@, self@.players, occ1, source, id, tick, step as int),
                        selected is Some ==> selected == pick_from(world_map@, self@.players, occ1, source, id, tick, 0),
                    decreases 4 - step,
                {
                    if selected.is_none() {
                        let direction = direction_of((base + step) % 4);
                        proof { assert(direction == rotated(id, tick, step as int)); }
                        match source.step(direction) {
                            Ok(p) => {
                                if world_map.is_walkable(p) && !self.is_player_occupied(p) && !occupied.contains(&p.key()) {
                                    selected = Some((direction, p));
                                }
                            },
                            Err(_) => {},
                        }
                    }
                    step = step + 1;
                }
                match selected {
                    Some((direction, destination)) => {
                        occupied.insert(destination.key());
                        decisions.push(StaticCreatureMoveDecision { creature_id: id, direction });
                    },
                    None => {
                        occupied.insert(source.key());
                        skipped = skipped + 1;
                    },
                }
            }
            i = i + 1;
        }
        proof { assert(ids@.take(ids@.len() as int) =~= ids@); }
        StaticCreatureDecisionBatch { decisions, skipped }
    }

    /// Plans the policy's moves and applies them in order; a refused move stops the batch with
    /// the moves before it applied.
    pub fn apply_static_creature_policy(&mut self, policy: StaticCreatureDecisionPolicy, world_map: &WorldMap)
        -> (r: Result<StaticCreatureDecisionBatch, CoreError>)
        ensures
            creatures_sound(old(self)@) ==> creatures_sound(final(self)@),
            ({
                let m = old(self)@;
                let ds = if policy == StaticCreatureDecisionPolicy::Disabled { Seq::empty() } else { planned(m, world_map@).1 };
                let (e, w) = apply_moves(m, ds, world_map@);
                &&& final(self)@ == w
                &&& match e {
                    Some(err) => r == Err::<StaticCreatureDecisionBatch, CoreError>(err),
                    None => r is Ok && r->Ok_0.decisions@ == ds
                        && r->Ok_0.skipped == (if policy == StaticCreatureDecisionPolicy::Disabled { 0 }
                            else { planned(m, world_map@).2 }),
                }
            }),
    {
        let ghost m = self@;
        let batch = self.plan_static_creature_moves(policy, world_map);
        proof {
            if policy == StaticCreatureDecisionPolicy::Disabled {
                assert(batch.decisions@ =~= Seq::<StaticCreatureMoveDecision>::empty());
            }
        }
        let mut i: usize = 0;
        proof { assert(batch.decisions@.take(0) =~= Seq::<StaticCreatureMoveDecision>::empty()); }
        while i < batch.decisions.len()
            invariant
                i <= batch.decisions@.len(),
                m == old(self)@,
                batch.decisions@ == (if policy == StaticCreatureDecisionPolicy::Disabled { Seq::empty() }
                    else { planned(m, world_map@).1 }),
                apply_moves(m, batch.decisions@.take(i as int), world_map@) == (None::<CoreError>, self@),
                creatures_sound(m) ==> creatures_sound(self@),
            decreases batch.decisions.len() - i,
        {
            let d = batch.decisions[i];
            proof {
                assert(batch.decisions@.take(i + 1).drop_last() =~= batch.decisions@.take(i as int));
                assert(batch.decisions@.take(i + 1).last() == d);
            }
            let ghost before = self@;
            match self.move_creature(d.creature_id, d.direction, world_map) {
                Ok(_) => {},
                Err(e) => {
                    proof {
                        assert(move_result(before, d.creature_id, d.direction, world_map@) == (Err::<(Position, Position), CoreError>(e), self@));
                        assert(apply_moves(m, batch.decisions@.take(i + 1), world_map@) == (Some(e), self@));
                        lemma_apply_moves_stops(m, batch.decisions@, world_map@, i + 1);
                    }
                    return Err(e);
                },
            }
            i = i + 1;
        }
        proof { assert(batch.decisions@.take(batch.decisions@.len() as int) =~= batch.decisions@); }
        Ok(batch)
    }
}

/// A refusal in a prefix of the decisions is the refusal of the whole batch.
proof fn lemma_apply_moves_stops(m: WorldModel, ds: Seq<StaticCreatureMoveDecision>, map: WorldMapView, n: int)
    requires
        0 <= n <= ds.len(),
        apply_moves(m, ds.take(n), map).0 is Some,
    ensures
        apply_moves(m, ds, map) == apply_moves(m, ds.take(n), map),
    decreases ds.len() - n,
{
    if n < ds.len() {
        assert(ds.take(n + 1).drop_last() =~= ds.take(n));
        lemma_apply_moves_stops(m, ds, map, n + 1);
    } else {
        assert(ds.take(n) =~= ds);
    }
}


/// One step of the loot generator.
pub open spec fn lcg(s: u64) -> u64 {
    s.wrapping_mul(6364136223846793005u64).wrapping_add(1442695040888963407u64)
}

/// The generator state a creature's loot roll starts from.
pub open spec fn loot_seed(seed: u64, id: u32, p: Position) -> u64 {
    seed ^ ((id as u64) << 32u64) ^ (p.x as u64) ^ ((p.y as u64) << 16u64)
}

/// The inclusive count range width of an entry (one for an unordered entry).
pub open spec fn count_span(e: StaticCreatureLootEntry) -> u64 {
    if e.min_count <= e.max_count { (e.max_count - e.min_count + 1) as u64 } else { 1 }
}

/// Rolling the entries in order: the generator state after them and the dropped
/// (item, count) pairs.
pub open spec fn loot_run(state: u64, entries: Seq<StaticCreatureLootEntry>) -> (u64, Seq<(u16, u16)>)
    decreases entries.len(),
{
    if entries.len() == 0 {
        (state, Seq::empty())
    } else {
        let (s1, items) = loot_run(state, entries.drop_last());
        let e = entries.last();
        let s2 = lcg(s1);
        let chance = if e.chance < LOOT_CHANCE_SCALE { e.chance } else { LOOT_CHANCE_SCALE };
        if ((s2 >> 33u64) % (LOOT_CHANCE_SCALE as u64)) < chance as u64 {
            let s3 = lcg(s2);
            (s3, items.push((e.item_id, (e.min_count + (s3 >> 33u64) % count_span(e)) as u16)))
        } else {
            (s2, items)
        }
    }
}

/// The items a defeated creature drops for a seed: none for an NPC or an empty table.
pub open spec fn rolled_items(c: StaticCreatureRuntime, id: u32, seed: u64) -> Seq<(u16, u16)> {
    if c.is_npc || c.loot@.len() == 0 { Seq::empty() } else { loot_run(loot_seed(seed, id, c.entity.position), c.loot@).1 }
}

/// The entities of the active creatures among `ids`, each with its runtime display health.
pub open spec fn active_entities(cs: Creatures, ids: Seq<u32>) -> Seq<FeTfsStaticEntity>
    decreases ids.len(),
{
    if ids.len() == 0 {
        Seq::empty()
    } else {
        let rest = active_entities(cs, ids.drop_last());
        let c = cs[ids.last()];
        if c.active { rest.push(FeTfsStaticEntity { health_percent: c.health_percent, ..c.entity }) } else { rest }
    }
}

/// The collection of the active creatures, as a protocol viewport reads it.
pub open spec fn active_collection(cs: Creatures) -> SpawnCollectionView {
    SpawnCollectionView {
        entities: active_entities(cs, sorted_u32(cs.dom())),
        respawn_intervals: Map::empty(),
        experience_rewards: Map::new(|id: u32| cs.contains_key(id) && cs[id].active && cs[id].experience_reward > 0,
            |id: u32| cs[id].experience_reward),
        melee_intervals: Map::empty(),
        damage_ranges: Map::new(|id: u32| cs.contains_key(id) && cs[id].active && cs[id].direct_melee_damage_range is Some,
            |id: u32| cs[id].direct_melee_damage_range->0),
        loot_tables: Map::new(|id: u32| cs.contains_key(id) && cs[id].active && cs[id].loot@.len() > 0,
            |id: u32| cs[id].loot@),
        npc_ids: Set::new(|id: u32| cs.contains_key(id) && cs[id].active && cs[id].is_npc),
        spawn_areas: Map::empty(),
    }
}

pub const DYNAMIC_ID_BASE: u32 = 0x7000_0000;

/// The offsets tried around a requested spawn tile, the tile itself first.
pub open spec fn spawn_offset(i: int) -> (int, int) {
    if i == 0 { (0, 0) } else if i == 1 { (1, 0) } else if i == 2 { (-1, 0) } else if i == 3 { (0, 1) }
    else if i == 4 { (0, -1) } else if i == 5 { (1, 1) } else if i == 6 { (-1, -1) } else if i == 7 { (1, -1) }
    else { (-1, 1) }
}

/// A coordinate moved by an offset, clamped at zero and wrapped into `u16`.
pub open spec fn shifted(v: u16, d: int) -> u16 {
    let w = v + d;
    if w < 0 { 0 } else if w > u16::MAX { (w - 65536) as u16 } else { w as u16 }
}

pub open spec fn spawn_candidate(p: Position, i: int) -> Position {
    Position { x: shifted(p.x, spawn_offset(i).0), y: shifted(p.y, spawn_offset(i).1), z: p.z }
}

/// Some active creature stands on `p`.
pub open spec fn active_at(cs: Creatures, p: Position) -> bool {
    exists|k: u32| cs.contains_key(k) && cs[k].active && #[trigger] cs[k].entity.position == p
}

/// The first candidate tile from `i` on that is walkable and that no player and no active
/// creature holds.
pub open spec fn spawn_spot_from(m: WorldModel, map: WorldMapView, p: Position, i: int) -> Option<Position>
    decreases 9 - i,
{
    if i >= 9 || i < 0 {
        None
    } else if walkable(map, spawn_candidate(p, i)) && !position_taken(m.players, spawn_candidate(p, i))
        && !active_at(m.static_creatures, spawn_candidate(p, i)) {
        Some(spawn_candidate(p, i))
    } else {
        spawn_spot_from(m, map, p, i + 1)
    }
}

/// `id` is the least creature whose lower-cased name is `name`.
pub open spec fn first_named(cs: Creatures, name: Seq<char>, id: u32) -> bool {
    &&& cs.contains_key(id)
    &&& lowercase_text(cs[id].entity.name@) == name
    &&& forall|k: u32| #[trigger] cs.contains_key(k) && lowercase_text(cs[k].entity.name@) == name ==> id <= k
}

/// The template a lower-cased name selects.
pub open spec fn template_for(cs: Creatures, name: Seq<char>) -> Option<u32> {
    if exists|id: u32| first_named(cs, name, id) { Some(choose|id: u32| first_named(cs, name, id)) } else { None }
}

/// The least free identifier of the dynamic range.
pub open spec fn free_slot(cs: Creatures, id: u32) -> bool {
    &&& id >= DYNAMIC_ID_BASE
    &&& !cs.contains_key(id)
    &&& forall|k: u32| DYNAMIC_ID_BASE <= k < id ==> #[trigger] cs.contains_key(k)
}

pub open spec fn next_free_slot(cs: Creatures) -> Option<u32> {
    if exists|id: u32| free_slot(cs, id) { Some(choose|id: u32| free_slot(cs, id)) } else { None }
}

/// The runtime of a summon cloned from a template.
pub open spec fn summoned_as(r: StaticCreatureRuntime, t: StaticCreatureRuntime, id: u32, p: Position, direction: u8, tick: u64) -> bool {
    &&& r.entity == FeTfsStaticEntity { id, position: p, direction, ..t.entity }
    &&& !r.is_npc
    &&& r.experience_reward == t.experience_reward
    &&& r.loot@ == t.loot@
    &&& r.spawn_position == p
    &&& r.monster_spawn_area is None
    &&& r.active
    &&& r.health_percent == t.health_percent
    &&& r.activated_at_tick == tick
    &&& r.inactive_since_tick is None
    &&& r.reactivation_due_tick is None
    &&& r.respawn_interval_seconds == 0
    &&& r.melee_cooldown_ticks == t.melee_cooldown_ticks
    &&& r.next_melee_due_tick == tick
    &&& r.direct_melee_damage_range == t.direct_melee_damage_range
    &&& r.direct_melee_damage_sequence == 0
    &&& r.target_player_id is None
}

impl WorldState {
    /// The deterministic loot of one defeated creature for a seed; unknown identifiers are
    /// refused, NPCs and empty tables drop nothing.
    pub fn roll_defeated_static_creature_loot(&self, id: u32, seed: u64) -> (r: Result<StaticCreatureLootRoll, CoreError>)
        ensures
            !self@.static_creatures.contains_key(id) ==> r == Err::<StaticCreatureLootRoll, CoreError>(CoreError::UnknownStaticCreature(id)),
            self@.static_creatures.contains_key(id) ==> r is Ok && r->Ok_0.creature_id == id
                && r->Ok_0.items@ == rolled_items(self@.static_creatures[id], id, seed),
    {
        let c = match self.static_creatures.get(&id) {
            Some(c) => c,
            None => { return Err(CoreError::UnknownStaticCreature(id)); },
        };
        if c.is_npc || c.loot.len() == 0 {
            return Ok(StaticCreatureLootRoll { creature_id: id, items: Vec::new() });
        }
        let mut items: Vec<(u16, u16)> = Vec::new();
        let p = c.entity.position;
        let mut state: u64 = seed ^ ((id as u64) << 32u64) ^ (p.x as u64) ^ ((p.y as u64) << 16u64);
        let mut i: usize = 0;
        proof { assert(c.loot@.take(0) =~= Seq::<StaticCreatureLootEntry>::empty()); }
        while i < c.loot.len()
            invariant
                i <= c.loot@.len(),
                loot_run(loot_seed(seed, id, p), c.loot@.take(i as int)) == (state, items@),
            decreases c.loot.len() - i,
        {
            let e = c.loot[i];
            proof {
                assert(c.loot@.take(i + 1).drop_last() =~= c.loot@.take(i as int));
                assert(c.loot@.take(i + 1).last() == e);
            }
            state = state.wrapping_mul(6364136223846793005u64).wrapping_add(1442695040888963407u64);
            let chance = if e.chance < LOOT_CHANCE_SCALE { e.chance } else { LOOT_CHANCE_SCALE };
            if (state >> 33u64) % (LOOT_CHANCE_SCALE as u64) < chance as u64 {
                let span: u64 = if e.min_count <= e.max_count { e.max_count as u64 - e.min_count as u64 + 1 } else { 1 };
                state = state.wrapping_mul(6364136223846793005u64).wrapping_add(1442695040888963407u64);
                let extra: u64 = (state >> 33u64) % span;
                proof {
                    if e.min_count <= e.max_count { assert(e.min_count + extra <= e.max_count); }
                }
                let count: u16 = (e.min_count as u64 + extra) as u16;
                items.push((e.item_id, count));
            }
            i = i + 1;
        }
        proof { assert(c.loot@.take(c.loot@.len() as int) =~= c.loot@); }
        Ok(StaticCreatureLootRoll { creature_id: id, items })
    }

    /// The deterministic loot of an active creature; an inactive one drops nothing.
    pub fn roll_static_creature_loot(&self, id: u32, seed: u64) -> (r: Result<StaticCreatureLootRoll, CoreError>)
        ensures
            !self@.static_creatures.contains_key(id) ==> r == Err::<StaticCreatureLootRoll, CoreError>(CoreError::UnknownStaticCreature(id)),
            self@.static_creatures.contains_key(id) ==> r is Ok && r->Ok_0.creature_id == id
                && r->Ok_0.items@ == (if self@.static_creatures[id].active { rolled_items(self@.static_creatures[id], id, seed) }
                    else { Seq::empty() }),
    {
        match self.static_creatures.get(&id) {
            None => Err(CoreError::UnknownStaticCreature(id)),
            Some(c) => if !c.active {
                Ok(StaticCreatureLootRoll { creature_id: id, items: Vec::new() })
            } else {
                self.roll_defeated_static_creature_loot(id, seed)
            },
        }
    }

    /// The active creatures as a spawn collection, each entity with its runtime display health.
    pub fn active_static_spawn_collection(&self) -> (r: FeTfsStaticSpawnCollection)
        ensures
            r@ == active_collection(self@.static_creatures),
    {
        let ghost cs = self@.static_creatures;
        let ids = map_keys_u32(&self.static_creatures);
        proof { lemma_sorted_u32(ids@, cs.dom()); }
        let mut entities: Vec<FeTfsStaticEntity> = Vec::new();
        let mut rewards: BTreeMap<u32, u64> = BTreeMap::new();
        let mut ranges: BTreeMap<u32, StaticCreatureDirectMeleeDamageRange> = BTreeMap::new();
        let mut loot: BTreeMap<u32, Vec<StaticCreatureLootEntry>> = BTreeMap::new();
        let mut npcs: BTreeSet<u32> = BTreeSet::new();
        let mut i: usize = 0;
        while i < ids.len()
            invariant
                i <= ids@.len(),
                cs == self@.static_creatures,
                strictly_increasing_u32(ids@),
                forall|j: int| 0 <= j < ids@.len() ==> cs.contains_key(#[trigger] ids@[j]),
                forall|k: u32| #[trigger] cs.contains_key(k) ==> ids@.contains(k),
                entities@ == active_entities(cs, ids@.take(i as int)),
                rewards@ == Map::new(|id: u32| ids@.take(i as int).contains(id) && cs[id].active && cs[id].experience_reward > 0,
                    |id: u32| cs[id].experience_reward),
                ranges@ == Map::new(|id: u32| ids@.take(i as int).contains(id) && cs[id].active
                    && cs[id].direct_melee_damage_range is Some, |id: u32| cs[id].direct_melee_damage_range->0),
                loot_view(loot@) == Map::new(|id: u32| ids@.take(i as int).contains(id) && cs[id].active && cs[id].loot@.len() > 0,
                    |id: u32| cs[id].loot@),
                npcs@ == Set::new(|id: u32| ids@.take(i as int).contains(id) && cs[id].active && cs[id].is_npc),
            decreases ids.len() - i,
        {
            let id = ids[i];
            let c = self.static_creatures.get(&id).unwrap();
            let ghost t0 = ids@.take(i as int);
            let ghost t1 = ids@.take(i + 1);
            proof {
                assert(t1.drop_last() =~= t0);
                assert forall|x: u32| t1.contains(x) <==> (t0.contains(x) || x == id) by {
                    if t1.contains(x) {
                        let q = choose|q: int| 0 <= q < t1.len() && t1[q] == x;
                        if q < i { assert(t0[q] == x); }
                    }
                    if t0.contains(x) {
                        let q = choose|q: int| 0 <= q < t0.len() && t0[q] == x;
                        assert(t1[q] == x);
                    }
                    if x == id { assert(t1[i as int] == x); }
                }
            }
            if c.active {
                let mut e = c.entity.duplicate();
                e.health_percent = c.health_percent;
                entities.push(e);
                if c.experience_reward > 0 {
                    rewards.insert(id, c.experience_reward);
                }
                if let Some(rg) = c.direct_melee_damage_range {
                    ranges.insert(id, rg);
                }
                if c.loot.len() > 0 {
                    let ghost before = loot@;
                    loot.insert(id, copy_loot(&c.loot));
                    proof { assert(loot_view(loot@) =~= loot_view(before).insert(id, c.loot@)); }
                }
                if c.is_npc {
                    npcs.insert(id);
                }
            }
            proof {
                assert(rewards@ =~= Map::new(|x: u32| t1.contains(x) && cs[x].active && cs[x].experience_reward > 0,
                    |x: u32| cs[x].experience_reward));
                assert(ranges@ =~= Map::new(|x: u32| t1.contains(x) && cs[x].active
                    && cs[x].direct_melee_damage_range is Some, |x: u32| cs[x].direct_melee_damage_range->0));
                assert(loot_view(loot@) =~= Map::new(|x: u32| t1.contains(x) && cs[x].active && cs[x].loot@.len() > 0,
                    |x: u32| cs[x].loot@));
                assert(npcs@ =~= Set::new(|x: u32| t1.contains(x) && cs[x].active && cs[x].is_npc));
            }
            i = i + 1;
        }
        proof {
            let all = ids@.take(ids@.len() as int);
            assert(all =~= ids@);
            assert forall|x: u32| all.contains(x) <==> cs.contains_key(x) by {
                if cs.contains_key(x) { assert(ids@.contains(x)); }
                if all.contains(x) {
                    let q = choose|q: int| 0 <= q < all.len() && all[q] == x;
                    assert(cs.contains_key(ids@[q]));
                }
            }
            assert(rewards@ =~= active_collection(cs).experience_rewards);
            assert(ranges@ =~= active_collection(cs).damage_ranges);
            assert(loot_view(loot@) =~= active_collection(cs).loot_tables);
            assert(npcs@ =~= active_collection(cs).npc_ids);
        }
        let r = FeTfsStaticSpawnCollection {
            entities,
            respawn_intervals_seconds: BTreeMap::new(),
            experience_rewards: rewards,
            direct_melee_intervals_millis: BTreeMap::new(),
            direct_melee_damage_ranges: ranges,
            loot_tables: loot,
            npc_ids: npcs,
            monster_spawn_areas: BTreeMap::new(),
        };
        proof { assert(r@ =~= active_collection(cs)); }
        r
    }

    /// Whether an active creature stands on `p`.
    fn active_creature_at(&self, p: Position) -> (r: bool)
        ensures
            r == active_at(self@.static_creatures, p),
    {
        let ids = map_keys_u32(&self.static_creatures);
        let mut i: usize = 0;
        while i < ids.len()
            invariant
                i <= ids@.len(),
                forall|j: int| 0 <= j < ids@.len() ==> self@.static_creatures.contains_key(#[trigger] ids@[j]),
                forall|k: u32| #[trigger] self@.static_creatures.contains_key(k) ==> ids@.contains(k),
                forall|j: int| 0 <= j < i ==> !(self@.static_creatures[#[trigger] ids@[j]].active
                    && self@.static_creatures[ids@[j]].entity.position == p),
            decreases ids.len() - i,
        {
            let c = self.static_creatures.get(&ids[i]).unwrap();
            if c.active && c.entity.position == p {
                return true;
            }
            i = i + 1;
        }
        proof {
            assert forall|k: u32| self@.static_creatures.contains_key(k) && self@.static_creatures[k].active
                implies #[trigger] self@.static_creatures[k].entity.position != p by {
                let j = choose|j: int| 0 <= j < ids@.len() && ids@[j] == k;
                assert(!(self@.static_creatures[ids@[j]].active && self@.static_creatures[ids@[j]].entity.position == p));
            }
        }
        false
    }

    /// The least creature whose lower-cased name is `name`.
    fn find_template(&self, name: &String) -> (r: Option<u32>)
        ensures
            r == template_for(self@.static_creatures, name@),
    {
        let ghost cs = self@.static_creatures;
        let ids = map_keys_u32(&self.static_creatures);
        let mut i: usize = 0;
        while i < ids.len()
            invariant
                i <= ids@.len(),
                cs == self@.static_creatures,
                strictly_increasing_u32(ids@),
                forall|j: int| 0 <= j < ids@.len() ==> cs.contains_key(#[trigger] ids@[j]),
                forall|k: u32| #[trigger] cs.contains_key(k) ==> ids@.contains(k),
                forall|j: int| 0 <= j < i ==> lowercase_text(cs[#[trigger] ids@[j]].entity.name@) != name@,
            decreases ids.len() - i,
        {
            let k = ids[i];
            let lowered = lowercase(self.static_creatures.get(&k).unwrap().entity.name.as_str());
            if lowered == *name {
                proof {
                    assert forall|q: u32| #[trigger] cs.contains_key(q) && lowercase_text(cs[q].entity.name@) == name@
                        implies k <= q by {
                        let j = choose|j: int| 0 <= j < ids@.len() && ids@[j] == q;
                        if j < i { assert(lowercase_text(cs[ids@[j]].entity.name@) != name@); }
                        if j > i { assert(ids@[i as int] < ids@[j]); }
                    }
                    assert(first_named(cs, name@, k));
                    let c = choose|c: u32| first_named(cs, name@, c);
                    assert(c <= k && k <= c);
                }
                return Some(k);
            }
            i = i + 1;
        }
        proof {
            assert forall|q: u32| !first_named(cs, name@, q) by {
                if cs.contains_key(q) {
                    let j = choose|j: int| 0 <= j < ids@.len() && ids@[j] == q;
                    assert(lowercase_text(cs[ids@[j]].entity.name@) != name@);
                }
            }
        }
        None
    }

    /// The least free identifier of the dynamic range, if any.
    fn find_free_slot(&self) -> (r: Option<u32>)
        ensures
            r == next_free_slot(self@.static_creatures),
    {
        let ghost cs = self@.static_creatures;
        let mut id: u32 = DYNAMIC_ID_BASE;
        loop
            invariant
                cs == self@.static_creatures,
                id >= DYNAMIC_ID_BASE,
                forall|k: u32| DYNAMIC_ID_BASE <= k < id ==> #[trigger] cs.contains_key(k),
            decreases u32::MAX - id,
        {
            if !self.static_creatures.contains_key(&id) {
                proof {
                    assert(free_slot(cs, id));
                    let c = choose|c: u32| free_slot(cs, c);
                    if c < id { assert(cs.contains_key(c)); }
                    if id < c { assert(cs.contains_key(id)); }
                }
                return Some(id);
            }
            if id == u32::MAX {
                proof {
                    assert forall|c: u32| !free_slot(cs, c) by {
                        if c >= DYNAMIC_ID_BASE && c < id { assert(cs.contains_key(c)); }
                    }
                }
                return None;
            }
            id = id + 1;
        }
    }

    /// The first of the nine candidate tiles around `p` that is walkable and free of players and
    /// active creatures.
    fn find_spawn_spot(&self, world_map: &WorldMap, p: Position) -> (r: Option<Position>)
        ensures
            r == spawn_spot_from(self@, world_map@, p, 0),
    {
        let mut i: u8 = 0;
        while i < 9
            invariant
                i <= 9,
                spawn_spot_from(self@, world_map@, p, 0) == spawn_spot_from(self@, world_map@, p, i as int),
            decreases 9 - i,
        {
            let (dx, dy): (i32, i32) = if i == 0 { (0, 0) } else if i == 1 { (1, 0) } else if i == 2 { (-1, 0) }
                else if i == 3 { (0, 1) } else if i == 4 { (0, -1) } else if i == 5 { (1, 1) }
                else if i == 6 { (-1, -1) } else if i == 7 { (1, -1) } else { (-1, 1) };
            let candidate = Position { x: shift_coordinate(p.x, dx), y: shift_coordinate(p.y, dy), z: p.z };
            proof { assert(candidate == spawn_candidate(p, i as int)); }
            if world_map.is_walkable(candidate) && !self.is_player_occupied(candidate) && !self.active_creature_at(candidate) {
                return Some(candidate);
            }
            i = i + 1;
        }
        None
    }

    /// Summons an operator-requested entity cloned from the least installed creature whose
    /// lower-cased name matches the trimmed, lower-cased request, at the first of nine tiles
    /// around `position` that is walkable and free of players and active creatures, under the
    /// least free identifier of the dynamic range.
    pub fn spawn_dynamic_entity(&mut self, world_map: &WorldMap, name: &str, position: Position, direction: u8)
        -> (r: Result<u32, CoreError>)
        ensures
            creatures_sound(old(self)@) ==> creatures_sound(final(self)@),
            r is Err ==> final(self)@ == old(self)@,
            ({
                let m = old(self)@;
                let lowered = lowercase_text(trimmed(name@));
                if m.static_creatures.len() >= MAX_TFS_STATIC_SPAWNS {
                    r == Err::<u32, CoreError>(CoreError::StaticSpawnLimit(MAX_TFS_STATIC_SPAWNS))
                } else if lowered.len() == 0 {
                    r == Err::<u32, CoreError>(CoreError::EmptyStaticSpawnName)
                } else if template_for(m.static_creatures, lowered) is None {
                    r is Err && r->Err_0 is UnknownEntityName && r->Err_0->UnknownEntityName_0@ == trimmed(name@)
                } else if spawn_spot_from(m, world_map@, position, 0) is None {
                    r == Err::<u32, CoreError>(CoreError::SpawnPositionRejected(position))
                } else if next_free_slot(m.static_creatures) is None {
                    r == Err::<u32, CoreError>(CoreError::DynamicSpawnLimit(MAX_TFS_STATIC_SPAWNS))
                } else {
                    let id = next_free_slot(m.static_creatures)->0;
                    let t = m.static_creatures[template_for(m.static_creatures, lowered)->0];
                    &&& r == Ok::<u32, CoreError>(id)
                    &&& final(self)@.static_creatures.dom() == m.static_creatures.dom().insert(id)
                    &&& forall|k: u32| #[trigger] m.static_creatures.contains_key(k)
                        ==> final(self)@.static_creatures[k] == m.static_creatures[k]
                    &&& summoned_as(final(self)@.static_creatures[id], t, id, spawn_spot_from(m, world_map@, position, 0)->0, direction, m.tick)
                    &&& final(self)@ == (WorldModel { revision: bumped(m.revision),
                        ..with_creatures(m, final(self)@.static_creatures) })
                }
            }),
    {
        if self.static_creatures.len() >= MAX_TFS_STATIC_SPAWNS {
            return Err(CoreError::StaticSpawnLimit(MAX_TFS_STATIC_SPAWNS));
        }
        let trimmed_name = trim_text(name);
        let lowered = lowercase(trimmed_name);
        if lowered.as_str().is_empty() {
            return Err(CoreError::EmptyStaticSpawnName);
        }
        let template_id = match self.find_template(&lowered) {
            Some(id) => id,
            None => { return Err(CoreError::UnknownEntityName(trimmed_name.to_owned())); },
        };
        let spot = match self.find_spawn_spot(world_map, position) {
            Some(p) => p,
            None => { return Err(CoreError::SpawnPositionRejected(position)); },
        };
        let slot = match self.find_free_slot() {
            Some(id) => id,
            None => { return Err(CoreError::DynamicSpawnLimit(MAX_TFS_STATIC_SPAWNS)); },
        };
        let t = self.static_creatures.get(&template_id).unwrap();
        let mut entity = t.entity.duplicate();
        entity.id = slot;
        entity.position = spot;
        entity.direction = direction;
        let runtime = StaticCreatureRuntime {
            entity,
            is_npc: false,
            experience_reward: t.experience_reward,
            loot: copy_loot(&t.loot),
            spawn_position: spot,
            monster_spawn_area: None,
            active: true,
            health_percent: t.health_percent,
            activated_at_tick: self.tick,
            inactive_since_tick: None,
            reactivation_due_tick: None,
            respawn_interval_seconds: 0,
            melee_cooldown_ticks: t.melee_cooldown_ticks,
            next_melee_due_tick: self.tick,
            direct_melee_damage_range: t.direct_melee_damage_range,
            direct_melee_damage_sequence: 0,
            target_player_id: None,
        };
        self.put_creature(slot, runtime);
        self.refresh_static_creature_occupancy();
        self.mark_changed();
        Ok(slot)
    }

    /// Removes one summon; only identifiers of the dynamic range can be despawned.
    pub fn despawn_dynamic_entity(&mut self, id: u32) -> (r: Result<(), CoreError>)
        ensures
            creatures_sound(old(self)@) ==> creatures_sound(final(self)@),
            (id < DYNAMIC_ID_BASE || !old(self)@.static_creatures.contains_key(id))
                ==> r == Err::<(), CoreError>(CoreError::UnknownStaticCreature(id)) && final(self)@ == old(self)@,
            id >= DYNAMIC_ID_BASE && old(self)@.static_creatures.contains_key(id) ==> r is Ok
                && final(self)@ == (WorldModel { revision: bumped(old(self)@.revision),
                    ..with_creatures(old(self)@, old(self)@.static_creatures.remove(id)) }),
    {
        if id < DYNAMIC_ID_BASE || !self.static_creatures.contains_key(&id) {
            return Err(CoreError::UnknownStaticCreature(id));
        }
        let _ = self.take_creature(id);
        self.refresh_static_creature_occupancy();
        self.mark_changed();
        Ok(())
    }

    /// The summons as (identifier, name, position) records in identifier order.
    pub fn dynamic_spawn_records(&self) -> (r: Vec<(u32, String, Position)>)
        ensures
            ({
                let ids = sorted_u32(self@.static_creatures.dom()).filter(|k: u32| k >= DYNAMIC_ID_BASE);
                &&& r@.len() == ids.len()
                &&& forall|i: int| 0 <= i < r@.len() ==> (#[trigger] r@[i]).0 == ids[i]
                    && r@[i].1@ == self@.static_creatures[ids[i]].entity.name@
                    && r@[i].2 == self@.static_creatures[ids[i]].entity.position
            }),
    {
        let ids = map_keys_u32(&self.static_creatures);
        proof { lemma_sorted_u32(ids@, self@.static_creatures.dom()); }
        let mut out: Vec<(u32, String, Position)> = Vec::new();
        let mut i: usize = 0;
        while i < ids.len()
            invariant
                i <= ids@.len(),
                forall|j: int| 0 <= j < ids@.len() ==> self@.static_creatures.contains_key(#[trigger] ids@[j]),
                out@.len() == ids@.take(i as int).filter(|k: u32| k >= DYNAMIC_ID_BASE).len(),
                forall|j: int| 0 <= j < out@.len() ==> (#[trigger] out@[j]).0 == ids@.take(i as int).filter(|k: u32| k >= DYNAMIC_ID_BASE)[j]
                    && out@[j].1@ == self@.static_creatures[out@[j].0].entity.name@
                    && out@[j].2 == self@.static_creatures[out@[j].0].entity.position,
            decreases ids.len() - i,
        {
            let k = ids[i];
            proof {
                assert(ids@.take(i + 1).drop_last() =~= ids@.take(i as int));
                reveal(Seq::filter);
            }
            if k >= DYNAMIC_ID_BASE {
                let c = self.static_creatures.get(&k).unwrap();
                out.push((k, c.entity.name.clone(), c.entity.position));
            }
            i = i + 1;
        }
        proof { assert(ids@.take(ids@.len() as int) =~= ids@); }
        out
    }
}

/// A coordinate moved by an offset, clamped at zero and wrapped into `u16`.
fn shift_coordinate(v: u16, d: i32) -> (r: u16)
    requires
        -1 <= d <= 1,
    ensures
        r == shifted(v, d as int),
{
    let w: i32 = v as i32 + d;
    if w < 0 { 0 } else if w > 65535 { (w - 65536) as u16 } else { w as u16 }
}

} // verus!
