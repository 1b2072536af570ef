//! Validated static spawn collections: the entities of a map import with their runtime metadata.

use vstd::prelude::*;
use std::collections::{BTreeMap, BTreeSet};
use crate::error::CoreError;
use crate::geometry::Position;
use crate::text::{is_blank, spec_is_blank, lowercase, lowercase_text};
use crate::keys::{map_keys_u32, set_keys_u32};
use crate::creatures::{FeTfsStaticEntity, StaticCreatureDirectMeleeDamageRange, StaticCreatureLootEntry,
    StaticCreatureSpawnArea, MAX_TFS_STATIC_SPAWNS, MAX_STATIC_LOOT_ENTRIES};

verus! {

broadcast use {vstd::std_specs::btree::group_btree_axioms, vstd::laws_cmp::group_laws_cmp};

/// The mathematical model of a spawn collection.
#[verifier::ext_equal]
pub struct SpawnCollectionView {
    pub entities: Seq<FeTfsStaticEntity>,
    pub respawn_intervals: Map<u32, u32>,
    pub experience_rewards: Map<u32, u64>,
    pub melee_intervals: Map<u32, u32>,
    pub damage_ranges: Map<u32, StaticCreatureDirectMeleeDamageRange>,
    pub loot_tables: Map<u32, Seq<StaticCreatureLootEntry>>,
    pub npc_ids: Set<u32>,
    pub spawn_areas: Map<u32, StaticCreatureSpawnArea>,
}

/// Imported static entities with their validated per-identifier metadata.
#[derive(Debug, Clone, PartialEq, Eq)]
pub struct FeTfsStaticSpawnCollection {
    pub entities: Vec<FeTfsStaticEntity>,
    pub(crate) respawn_intervals_seconds: BTreeMap<u32, u32>,
    pub(crate) experience_rewards: BTreeMap<u32, u64>,
    pub(crate) direct_melee_intervals_millis: BTreeMap<u32, u32>,
    pub(crate) direct_melee_damage_ranges: BTreeMap<u32, StaticCreatureDirectMeleeDamageRange>,
    pub(crate) loot_tables: BTreeMap<u32, Vec<StaticCreatureLootEntry>>,
    pub(crate) npc_ids: BTreeSet<u32>,
    pub(crate) monster_spawn_areas: BTreeMap<u32, StaticCreatureSpawnArea>,
}

impl View for FeTfsStaticSpawnCollection {
    type V = SpawnCollectionView;

    /// The mathematical model of this collection.
    open(crate) spec fn view(&self) -> SpawnCollectionView {
        SpawnCollectionView {
            entities: self.entities@,
            respawn_intervals: self.respawn_intervals_seconds@,
            experience_rewards: self.experience_rewards@,
            melee_intervals: self.direct_melee_intervals_millis@,
            damage_ranges: self.direct_melee_damage_ranges@,
            loot_tables: loot_view(self.loot_tables@),
            npc_ids: self.npc_ids@,
            spawn_areas: self.monster_spawn_areas@,
        }
    }
}

pub open spec fn loot_view(m: Map<u32, Vec<StaticCreatureLootEntry>>) -> Map<u32, Seq<StaticCreatureLootEntry>> {
    m.map_values(|v: Vec<StaticCreatureLootEntry>| v@)
}

/// The identifiers of a sequence of entities.
pub open spec fn ids_of(es: Seq<FeTfsStaticEntity>) -> Set<u32> {
    Set::new(|id: u32| exists|i: int| 0 <= i < es.len() && #[trigger] es[i].id == id)
}

/// The first entity that a collection refuses: a blank name, a health above 100, or an identifier
/// that an earlier entity holds.
pub open spec fn entity_error(es: Seq<FeTfsStaticEntity>) -> Option<CoreError>
    decreases es.len(),
{
    if es.len() == 0 {
        None
    } else {
        match entity_error(es.drop_last()) {
            Some(e) => Some(e),
            None => {
                let e = es.last();
                if spec_is_blank(e.name@) {
                    Some(CoreError::EmptyStaticSpawnName)
                } else if e.health_percent > 100 {
                    Some(CoreError::InvalidStaticCreatureHealthPercent(e.health_percent))
                } else if ids_of(es.drop_last()).contains(e.id) {
                    Some(CoreError::DuplicateStaticSpawnId(e.id))
                } else {
                    None
                }
            },
        }
    }
}

pub open spec fn loot_entry_valid(e: StaticCreatureLootEntry) -> bool {
    e.item_id != 0 && e.min_count != 0 && e.min_count <= e.max_count
}

/// A loot table belongs to a known monster (not an NPC), is bounded, and each entry is valid.
pub open spec fn loot_table_valid(ids: Set<u32>, npcs: Set<u32>, id: u32, t: Seq<StaticCreatureLootEntry>) -> bool {
    &&& ids.contains(id)
    &&& !npcs.contains(id)
    &&& t.len() <= MAX_STATIC_LOOT_ENTRIES
    &&& forall|j: int| 0 <= j < t.len() ==> loot_entry_valid(#[trigger] t[j])
}

/// Every metadata table speaks only of known identifiers, with nonzero intervals, ordered damage
/// ranges and valid loot tables.
pub open spec fn metadata_valid(ids: Set<u32>, v: SpawnCollectionView) -> bool {
    &&& forall|id: u32| #[trigger] v.respawn_intervals.contains_key(id) ==> ids.contains(id)
    &&& forall|id: u32| #[trigger] v.experience_rewards.contains_key(id) ==> ids.contains(id)
    &&& forall|id: u32| #[trigger] v.melee_intervals.contains_key(id) ==> ids.contains(id) && v.melee_intervals[id] != 0
    &&& forall|id: u32| #[trigger] v.damage_ranges.contains_key(id)
        ==> ids.contains(id) && v.damage_ranges[id].min_damage <= v.damage_ranges[id].max_damage
    &&& forall|id: u32| #[trigger] v.npc_ids.contains(id) ==> ids.contains(id)
    &&& forall|id: u32| #[trigger] v.loot_tables.contains_key(id) ==> loot_table_valid(ids, v.npc_ids, id, v.loot_tables[id])
}

/// The first refused entity of a prefix is the first refused entity of the whole sequence.
proof fn lemma_entity_error_prefix(es: Seq<FeTfsStaticEntity>, n: int)
    requires
        0 <= n <= es.len(),
        entity_error(es.take(n)) is Some,
    ensures
        entity_error(es) == entity_error(es.take(n)),
    decreases es.len() - n,
{
    if n < es.len() {
        assert(es.take(n + 1).drop_last() =~= es.take(n));
        lemma_entity_error_prefix(es, n + 1);
    } else {
        assert(es.take(n) =~= es);
    }
}

/// Validates the entities in order and collects their identifiers.
fn check_entities(entities: &Vec<FeTfsStaticEntity>) -> (r: Result<BTreeSet<u32>, CoreError>)
    ensures
        match entity_error(entities@) {
            Some(e) => r == Err::<BTreeSet<u32>, CoreError>(e),
            None => r is Ok && r->Ok_0@ == ids_of(entities@),
        },
{
    let mut ids: BTreeSet<u32> = BTreeSet::new();
    let mut i: usize = 0;
    proof { assert(ids_of(entities@.take(0)) =~= Set::<u32>::empty()); }
    while i < entities.len()
        invariant
            i <= entities@.len(),
            entity_error(entities@.take(i as int)) is None,
            ids@ == ids_of(entities@.take(i as int)),
        decreases entities.len() - i,
    {
        let e = &entities[i];
        proof { assert(entities@.take(i + 1).drop_last() =~= entities@.take(i as int)); }
        if is_blank(e.name.as_str()) {
            proof { lemma_entity_error_prefix(entities@, i + 1); }
            return Err(CoreError::EmptyStaticSpawnName);
        }
        if e.health_percent > 100 {
            proof { lemma_entity_error_prefix(entities@, i + 1); }
            return Err(CoreError::InvalidStaticCreatureHealthPercent(e.health_percent));
        }
        if ids.contains(&e.id) {
            proof { lemma_entity_error_prefix(entities@, i + 1); }
            return Err(CoreError::DuplicateStaticSpawnId(e.id));
        }
        ids.insert(e.id);
        proof {
            let p = entities@.take(i as int);
            let q = entities@.take(i + 1);
            assert forall|id: u32| ids_of(q).contains(id) <==> ids_of(p).insert(e.id).contains(id) by {
                if ids_of(q).contains(id) {
                    let j = choose|j: int| 0 <= j < q.len() && #[trigger] q[j].id == id;
                    if j < i { assert(p[j].id == id); }
                }
                if ids_of(p).contains(id) {
                    let j = choose|j: int| 0 <= j < p.len() && #[trigger] p[j].id == id;
                    assert(q[j].id == id);
                }
                if id == e.id { assert(q[i as int].id == id); }
            }
            assert(ids@ =~= ids_of(q));
        }
        i = i + 1;
    }
    proof { assert(entities@.take(entities@.len() as int) =~= entities@); }
    Ok(ids)
}

/// Every key of `m` is a known identifier.
fn keys_known<V>(m: &BTreeMap<u32, V>, ids: &BTreeSet<u32>) -> (r: bool)
    ensures
        r == forall|id: u32| #[trigger] m@.contains_key(id) ==> ids@.contains(id),
{
    let ks = map_keys_u32(m);
    let mut i: usize = 0;
    while i < ks.len()
        invariant
            i <= ks@.len(),
            forall|j: int| 0 <= j < ks@.len() ==> m@.contains_key(#[trigger] ks@[j]),
            forall|k: u32| #[trigger] m@.contains_key(k) ==> ks@.contains(k),
            forall|j: int| 0 <= j < i ==> ids@.contains(#[trigger] ks@[j]),
        decreases ks.len() - i,
    {
        if !ids.contains(&ks[i]) {
            proof { assert(m@.contains_key(ks@[i as int])); }
            return false;
        }
        i = i + 1;
    }
    proof {
        assert forall|id: u32| #[trigger] m@.contains_key(id) implies ids@.contains(id) by {
            let j = choose|j: int| 0 <= j < ks@.len() && ks@[j] == id;
            assert(ids@.contains(ks@[j]));
        }
    }
    true
}

/// Every member of `s` is a known identifier.
fn members_known(s: &BTreeSet<u32>, ids: &BTreeSet<u32>) -> (r: bool)
    ensures
        r == forall|id: u32| #[trigger] s@.contains(id) ==> ids@.contains(id),
{
    let ks = set_keys_u32(s);
    let mut i: usize = 0;
    while i < ks.len()
        invariant
            i <= ks@.len(),
            forall|j: int| 0 <= j < ks@.len() ==> s@.contains(#[trigger] ks@[j]),
            forall|k: u32| #[trigger] s@.contains(k) ==> ks@.contains(k),
            forall|j: int| 0 <= j < i ==> ids@.contains(#[trigger] ks@[j]),
        decreases ks.len() - i,
    {
        if !ids.contains(&ks[i]) {
            proof { assert(s@.contains(ks@[i as int])); }
            return false;
        }
        i = i + 1;
    }
    proof {
        assert forall|id: u32| #[trigger] s@.contains(id) implies ids@.contains(id) by {
            let j = choose|j: int| 0 <= j < ks@.len() && ks@[j] == id;
            assert(ids@.contains(ks@[j]));
        }
    }
    true
}

/// Every interval belongs to a known identifier and is nonzero.
fn intervals_valid(m: &BTreeMap<u32, u32>, ids: &BTreeSet<u32>) -> (r: bool)
    ensures
        r == forall|id: u32| #[trigger] m@.contains_key(id) ==> ids@.contains(id) && m@[id] != 0,
{
    let ks = map_keys_u32(m);
    let mut i: usize = 0;
    while i < ks.len()
        invariant
            i <= ks@.len(),
            forall|j: int| 0 <= j < ks@.len() ==> m@.contains_key(#[trigger] ks@[j]),
            forall|k: u32| #[trigger] m@.contains_key(k) ==> ks@.contains(k),
            forall|j: int| 0 <= j < i ==> ids@.contains(#[trigger] ks@[j]) && m@[ks@[j]] != 0,
        decreases ks.len() - i,
    {
        let k = ks[i];
        if !ids.contains(&k) || *m.get(&k).unwrap() == 0 {
            proof { assert(m@.contains_key(ks@[i as int])); }
            return false;
        }
        i = i + 1;
    }
    proof {
        assert forall|id: u32| #[trigger] m@.contains_key(id) implies ids@.contains(id) && m@[id] != 0 by {
            let j = choose|j: int| 0 <= j < ks@.len() && ks@[j] == id;
            assert(ids@.contains(ks@[j]));
        }
    }
    true
}

/// Every damage range belongs to a known identifier and is ordered.
fn ranges_valid(m: &BTreeMap<u32, StaticCreatureDirectMeleeDamageRange>, ids: &BTreeSet<u32>) -> (r: bool)
    ensures
        r == forall|id: u32| #[trigger] m@.contains_key(id)
            ==> ids@.contains(id) && m@[id].min_damage <= m@[id].max_damage,
{
    let ks = map_keys_u32(m);
    let mut i: usize = 0;
    while i < ks.len()
        invariant
            i <= ks@.len(),
            forall|j: int| 0 <= j < ks@.len() ==> m@.contains_key(#[trigger] ks@[j]),
            forall|k: u32| #[trigger] m@.contains_key(k) ==> ks@.contains(k),
            forall|j: int| 0 <= j < i ==> ids@.contains(#[trigger] ks@[j]) && m@[ks@[j]].min_damage <= m@[ks@[j]].max_damage,
        decreases ks.len() - i,
    {
        let k = ks[i];
        let range = *m.get(&k).unwrap();
        if !ids.contains(&k) || range.min_damage > range.max_damage {
            proof { assert(m@.contains_key(ks@[i as int])); }
            return false;
        }
        i = i + 1;
    }
    proof {
        assert forall|id: u32| #[trigger] m@.contains_key(id)
            implies ids@.contains(id) && m@[id].min_damage <= m@[id].max_damage by {
            let j = choose|j: int| 0 <= j < ks@.len() && ks@[j] == id;
            assert(ids@.contains(ks@[j]));
        }
    }
    true
}

/// Every entry of one loot table is valid.
fn entries_valid(t: &Vec<StaticCreatureLootEntry>) -> (r: bool)
    ensures
        r == forall|j: int| 0 <= j < t@.len() ==> loot_entry_valid(#[trigger] t@[j]),
{
    let mut i: usize = 0;
    while i < t.len()
        invariant
            i <= t@.len(),
            forall|j: int| 0 <= j < i ==> loot_entry_valid(#[trigger] t@[j]),
        decreases t.len() - i,
    {
        let e = t[i];
        if e.item_id == 0 || e.min_count == 0 || e.min_count > e.max_count {
            proof { assert(!loot_entry_valid(t@[i as int])); }
            return false;
        }
        i = i + 1;
    }
    true
}

/// Every loot table is valid.
fn loot_valid(m: &BTreeMap<u32, Vec<StaticCreatureLootEntry>>, ids: &BTreeSet<u32>, npcs: &BTreeSet<u32>) -> (r: bool)
    ensures
        r == forall|id: u32| #[trigger] loot_view(m@).contains_key(id)
            ==> loot_table_valid(ids@, npcs@, id, loot_view(m@)[id]),
{
    let ks = map_keys_u32(m);
    let mut i: usize = 0;
    while i < ks.len()
        invariant
            i <= ks@.len(),
            forall|j: int| 0 <= j < ks@.len() ==> m@.contains_key(#[trigger] ks@[j]),
            forall|k: u32| #[trigger] m@.contains_key(k) ==> ks@.contains(k),
            forall|j: int| 0 <= j < i ==> loot_table_valid(ids@, npcs@, ks@[j], #[trigger] loot_view(m@)[ks@[j]]),
        decreases ks.len() - i,
    {
        let k = ks[i];
        let t = m.get(&k).unwrap();
        assert(loot_view(m@)[k] == t@);
        if !ids.contains(&k) || npcs.contains(&k) || t.len() > MAX_STATIC_LOOT_ENTRIES || !entries_valid(t) {
            proof { assert(loot_view(m@).contains_key(k)); }
            return false;
        }
        i = i + 1;
    }
    proof {
        assert forall|id: u32| #[trigger] loot_view(m@).contains_key(id)
            implies loot_table_valid(ids@, npcs@, id, loot_view(m@)[id]) by {
            let j = choose|j: int| 0 <= j < ks@.len() && ks@[j] == id;
            assert(loot_table_valid(ids@, npcs@, ks@[j], loot_view(m@)[ks@[j]]));
        }
    }
    true
}

impl Default for FeTfsStaticSpawnCollection {
    fn default() -> (r: FeTfsStaticSpawnCollection)
        ensures
            r@ == (SpawnCollectionView {
                entities: Seq::empty(),
                respawn_intervals: Map::empty(),
                experience_rewards: Map::empty(),
                melee_intervals: Map::empty(),
                damage_ranges: Map::empty(),
                loot_tables: Map::empty(),
                npc_ids: Set::empty(),
                spawn_areas: Map::empty(),
            }),
    {
        let r = FeTfsStaticSpawnCollection {
            entities: Vec::new(),
            respawn_intervals_seconds: BTreeMap::new(),
            experience_rewards: BTreeMap::new(),
            direct_melee_intervals_millis: BTreeMap::new(),
            direct_melee_damage_ranges: BTreeMap::new(),
            loot_tables: BTreeMap::new(),
            npc_ids: BTreeSet::new(),
            monster_spawn_areas: BTreeMap::new(),
        };
        assert(loot_view(r.loot_tables@) =~= Map::empty());
        r
    }
}

/// The collection that the constructors build from their arguments.
pub open spec fn candidate(
    entities: Seq<FeTfsStaticEntity>,
    respawn: Map<u32, u32>,
    rewards: Map<u32, u64>,
    intervals: Map<u32, u32>,
    ranges: Map<u32, StaticCreatureDirectMeleeDamageRange>,
    npcs: Set<u32>,
    loot: Map<u32, Seq<StaticCreatureLootEntry>>,
) -> SpawnCollectionView {
    SpawnCollectionView {
        entities,
        respawn_intervals: respawn,
        experience_rewards: rewards,
        melee_intervals: intervals,
        damage_ranges: ranges,
        loot_tables: loot,
        npc_ids: npcs,
        spawn_areas: Map::empty(),
    }
}

/// What the constructors return for a candidate collection.
pub open spec fn built(r: Result<FeTfsStaticSpawnCollection, CoreError>, c: SpawnCollectionView) -> bool {
    if c.entities.len() > MAX_TFS_STATIC_SPAWNS {
        r == Err::<FeTfsStaticSpawnCollection, CoreError>(CoreError::StaticSpawnLimit(MAX_TFS_STATIC_SPAWNS))
    } else if entity_error(c.entities) is Some {
        r == Err::<FeTfsStaticSpawnCollection, CoreError>(entity_error(c.entities)->0)
    } else if !metadata_valid(ids_of(c.entities), c) {
        r == Err::<FeTfsStaticSpawnCollection, CoreError>(CoreError::UnknownStaticCreatureSchedule)
    } else {
        r is Ok && r->Ok_0@ == c
    }
}

impl FeTfsStaticSpawnCollection {
    /// A collection of entities without metadata.
    pub fn new(entities: Vec<FeTfsStaticEntity>) -> (r: Result<FeTfsStaticSpawnCollection, CoreError>)
        ensures
            built(r, candidate(entities@, Map::empty(), Map::empty(), Map::empty(), Map::empty(), Set::empty(), Map::empty())),
    {
        Self::with_respawn_intervals(entities, BTreeMap::new())
    }

    pub fn with_respawn_intervals(entities: Vec<FeTfsStaticEntity>, respawn_intervals_seconds: BTreeMap<u32, u32>)
        -> (r: Result<FeTfsStaticSpawnCollection, CoreError>)
        ensures
            built(r, candidate(entities@, respawn_intervals_seconds@, Map::empty(), Map::empty(), Map::empty(),
                Set::empty(), Map::empty())),
    {
        Self::with_respawn_intervals_and_experience_rewards(entities, respawn_intervals_seconds, BTreeMap::new())
    }

    /// Retains reward metadata for known identifiers.
    pub fn with_respawn_intervals_and_experience_rewards(
        entities: Vec<FeTfsStaticEntity>,
        respawn_intervals_seconds: BTreeMap<u32, u32>,
        experience_rewards: BTreeMap<u32, u64>,
    ) -> (r: Result<FeTfsStaticSpawnCollection, CoreError>)
        ensures
            built(r, candidate(entities@, respawn_intervals_seconds@, experience_rewards@, Map::empty(), Map::empty(),
                Set::empty(), Map::empty())),
    {
        Self::with_runtime_metadata(entities, respawn_intervals_seconds, experience_rewards, BTreeMap::new())
    }

    /// Retains direct-melee intervals for known identifiers.
    pub fn with_runtime_metadata(
        entities: Vec<FeTfsStaticEntity>,
        respawn_intervals_seconds: BTreeMap<u32, u32>,
        experience_rewards: BTreeMap<u32, u64>,
        direct_melee_intervals_millis: BTreeMap<u32, u32>,
    ) -> (r: Result<FeTfsStaticSpawnCollection, CoreError>)
        ensures
            built(r, candidate(entities@, respawn_intervals_seconds@, experience_rewards@, direct_melee_intervals_millis@,
                Map::empty(), Set::empty(), Map::empty())),
    {
        Self::with_combat_metadata(entities, respawn_intervals_seconds, experience_rewards,
            direct_melee_intervals_millis, BTreeMap::new())
    }

    /// Retains direct-melee intervals and damage ranges together.
    pub fn with_combat_metadata(
        entities: Vec<FeTfsStaticEntity>,
        respawn_intervals_seconds: BTreeMap<u32, u32>,
        experience_rewards: BTreeMap<u32, u64>,
        direct_melee_intervals_millis: BTreeMap<u32, u32>,
        direct_melee_damage_ranges: BTreeMap<u32, StaticCreatureDirectMeleeDamageRange>,
    ) -> (r: Result<FeTfsStaticSpawnCollection, CoreError>)
        ensures
            built(r, candidate(entities@, respawn_intervals_seconds@, experience_rewards@, direct_melee_intervals_millis@,
                direct_melee_damage_ranges@, Set::empty(), Map::empty())),
    {
        Self::with_combat_metadata_and_npc_ids(entities, respawn_intervals_seconds, experience_rewards,
            direct_melee_intervals_millis, direct_melee_damage_ranges, BTreeSet::new())
    }

    /// Retains NPC identity by identifier.
    pub fn with_combat_metadata_and_npc_ids(
        entities: Vec<FeTfsStaticEntity>,
        respawn_intervals_seconds: BTreeMap<u32, u32>,
        experience_rewards: BTreeMap<u32, u64>,
        direct_melee_intervals_millis: BTreeMap<u32, u32>,
        direct_melee_damage_ranges: BTreeMap<u32, StaticCreatureDirectMeleeDamageRange>,
        npc_ids: BTreeSet<u32>,
    ) -> (r: Result<FeTfsStaticSpawnCollection, CoreError>)
        ensures
            built(r, candidate(entities@, respawn_intervals_seconds@, experience_rewards@, direct_melee_intervals_millis@,
                direct_melee_damage_ranges@, npc_ids@, Map::empty())),
    {
        let loot: BTreeMap<u32, Vec<StaticCreatureLootEntry>> = BTreeMap::new();
        proof { assert(loot_view(loot@) =~= Map::empty()); }
        Self::with_loot_tables(entities, respawn_intervals_seconds, experience_rewards, direct_melee_intervals_millis,
            direct_melee_damage_ranges, npc_ids, loot)
    }

    /// Retains validated declarative loot tables by identifier.
    pub fn with_loot_tables(
        entities: Vec<FeTfsStaticEntity>,
        respawn_intervals_seconds: BTreeMap<u32, u32>,
        experience_rewards: BTreeMap<u32, u64>,
        direct_melee_intervals_millis: BTreeMap<u32, u32>,
        direct_melee_damage_ranges: BTreeMap<u32, StaticCreatureDirectMeleeDamageRange>,
        npc_ids: BTreeSet<u32>,
        loot_tables: BTreeMap<u32, Vec<StaticCreatureLootEntry>>,
    ) -> (r: Result<FeTfsStaticSpawnCollection, CoreError>)
        ensures
            built(r, candidate(entities@, respawn_intervals_seconds@, experience_rewards@, direct_melee_intervals_millis@,
                direct_melee_damage_ranges@, npc_ids@, loot_view(loot_tables@))),
    {
        if entities.len() > MAX_TFS_STATIC_SPAWNS {
            return Err(CoreError::StaticSpawnLimit(MAX_TFS_STATIC_SPAWNS));
        }
        let ids = match check_entities(&entities) {
            Ok(ids) => ids,
            Err(e) => { return Err(e); },
        };
        let respawn_ok = keys_known(&respawn_intervals_seconds, &ids);
        let rewards_ok = keys_known(&experience_rewards, &ids);
        let intervals_ok = intervals_valid(&direct_melee_intervals_millis, &ids);
        let ranges_ok = ranges_valid(&direct_melee_damage_ranges, &ids);
        let npcs_ok = members_known(&npc_ids, &ids);
        let loot_ok = loot_valid(&loot_tables, &ids, &npc_ids);
        if !(respawn_ok && rewards_ok && intervals_ok && ranges_ok && npcs_ok && loot_ok) {
            proof {
                let c = candidate(entities@, respawn_intervals_seconds@, experience_rewards@,
                    direct_melee_intervals_millis@, direct_melee_damage_ranges@, npc_ids@, loot_view(loot_tables@));
                assert(c.loot_tables == loot_view(loot_tables@));
                if !loot_ok {
                    let bad = choose|id: u32| loot_view(loot_tables@).contains_key(id)
                        && !loot_table_valid(ids@, npc_ids@, id, loot_view(loot_tables@)[id]);
                    assert(loot_view(loot_tables@).contains_key(bad));
                    assert(!loot_table_valid(ids@, npc_ids@, bad, loot_view(loot_tables@)[bad]));
                    assert(c.loot_tables.contains_key(bad));
                    assert(!loot_table_valid(ids@, c.npc_ids, bad, c.loot_tables[bad]));
                }
                if !respawn_ok {
                    let bad = choose|id: u32| respawn_intervals_seconds@.contains_key(id) && !ids@.contains(id);
                    assert(c.respawn_intervals.contains_key(bad));
                }
                if !rewards_ok {
                    let bad = choose|id: u32| experience_rewards@.contains_key(id) && !ids@.contains(id);
                    assert(c.experience_rewards.contains_key(bad));
                }
                if !intervals_ok {
                    let bad = choose|id: u32| direct_melee_intervals_millis@.contains_key(id)
                        && !(ids@.contains(id) && direct_melee_intervals_millis@[id] != 0);
                    assert(c.melee_intervals.contains_key(bad));
                }
                if !ranges_ok {
                    assert(!(forall|id: u32| #[trigger] direct_melee_damage_ranges@.contains_key(id)
                        ==> ids@.contains(id) && direct_melee_damage_ranges@[id].min_damage <= direct_melee_damage_ranges@[id].max_damage));
                    let bad = choose|id: u32| direct_melee_damage_ranges@.contains_key(id)
                        && !(ids@.contains(id) && direct_melee_damage_ranges@[id].min_damage <= direct_melee_damage_ranges@[id].max_damage);
                    assert(c.damage_ranges.contains_key(bad));
                }
                if !npcs_ok {
                    let bad = choose|id: u32| npc_ids@.contains(id) && !ids@.contains(id);
                    assert(c.npc_ids.contains(bad));
                }
                assert(!metadata_valid(ids@, c));
            }
            return Err(CoreError::UnknownStaticCreatureSchedule);
        }
        Ok(FeTfsStaticSpawnCollection {
            entities,
            respawn_intervals_seconds,
            experience_rewards,
            direct_melee_intervals_millis,
            direct_melee_damage_ranges,
            loot_tables,
            npc_ids,
            monster_spawn_areas: BTreeMap::new(),
        })
    }

    /// Attaches owning spawn areas to known monster identifiers only.
    pub fn with_monster_spawn_areas(self, monster_spawn_areas: BTreeMap<u32, StaticCreatureSpawnArea>)
        -> (r: Result<FeTfsStaticSpawnCollection, CoreError>)
        ensures
            if forall|id: u32| #[trigger] monster_spawn_areas@.contains_key(id)
                ==> ids_of(self@.entities).contains(id) && !self@.npc_ids.contains(id) {
                r is Ok && r->Ok_0@ == (SpawnCollectionView { spawn_areas: monster_spawn_areas@, ..self@ })
            } else {
                r == Err::<FeTfsStaticSpawnCollection, CoreError>(CoreError::UnknownStaticCreatureSchedule)
            },
    {
        let ids = self.entity_id_set();
        let ks = map_keys_u32(&monster_spawn_areas);
        let mut i: usize = 0;
        while i < ks.len()
            invariant
                i <= ks@.len(),
                ids@ == ids_of(self@.entities),
                forall|j: int| 0 <= j < ks@.len() ==> monster_spawn_areas@.contains_key(#[trigger] ks@[j]),
                forall|k: u32| #[trigger] monster_spawn_areas@.contains_key(k) ==> ks@.contains(k),
                forall|j: int| 0 <= j < i ==> ids@.contains(#[trigger] ks@[j]) && !self@.npc_ids.contains(ks@[j]),
            decreases ks.len() - i,
        {
            let k = ks[i];
            if !ids.contains(&k) || self.npc_ids.contains(&k) {
                proof { assert(monster_spawn_areas@.contains_key(ks@[i as int])); }
                return Err(CoreError::UnknownStaticCreatureSchedule);
            }
            i = i + 1;
        }
        proof {
            assert forall|id: u32| #[trigger] monster_spawn_areas@.contains_key(id)
                implies ids_of(self@.entities).contains(id) && !self@.npc_ids.contains(id) by {
                let j = choose|j: int| 0 <= j < ks@.len() && ks@[j] == id;
                assert(ids@.contains(ks@[j]));
            }
        }
        let mut out = self;
        out.monster_spawn_areas = monster_spawn_areas;
        Ok(out)
    }

    /// The identifiers of the entities.
    fn entity_id_set(&self) -> (r: BTreeSet<u32>)
        ensures
            r@ == ids_of(self@.entities),
    {
        let mut ids: BTreeSet<u32> = BTreeSet::new();
        let mut i: usize = 0;
        proof { assert(ids_of(self.entities@.take(0)) =~= Set::<u32>::empty()); }
        while i < self.entities.len()
            invariant
                i <= self.entities@.len(),
                ids@ == ids_of(self.entities@.take(i as int)),
            decreases self.entities.len() - i,
        {
            let id = self.entities[i].id;
            ids.insert(id);
            proof {
                let p = self.entities@.take(i as int);
                let q = self.entities@.take(i + 1);
                assert forall|x: u32| ids_of(q).contains(x) <==> ids_of(p).insert(id).contains(x) by {
                    if ids_of(q).contains(x) {
                        let j = choose|j: int| 0 <= j < q.len() && #[trigger] q[j].id == x;
                        if j < i { assert(p[j].id == x); }
                    }
                    if ids_of(p).contains(x) {
                        let j = choose|j: int| 0 <= j < p.len() && #[trigger] p[j].id == x;
                        assert(q[j].id == x);
                    }
                    if x == id { assert(q[i as int].id == x); }
                }
                assert(ids@ =~= ids_of(q));
            }
            i = i + 1;
        }
        proof { assert(self.entities@.take(self.entities@.len() as int) =~= self.entities@); }
        ids
    }

    pub fn monster_spawn_area(&self, id: u32) -> (r: Option<StaticCreatureSpawnArea>)
        ensures
            r == (if self@.spawn_areas.contains_key(id) { Some(self@.spawn_areas[id]) } else { None }),
    {
        match self.monster_spawn_areas.get(&id) {
            Some(a) => Some(*a),
            None => None,
        }
    }

    pub fn respawn_interval_seconds(&self, id: u32) -> (r: u32)
        ensures
            r == (if self@.respawn_intervals.contains_key(id) { self@.respawn_intervals[id] } else { 0 }),
    {
        match self.respawn_intervals_seconds.get(&id) {
            Some(v) => *v,
            None => 0,
        }
    }

    pub fn experience_reward(&self, id: u32) -> (r: u64)
        ensures
            r == (if self@.experience_rewards.contains_key(id) { self@.experience_rewards[id] } else { 0 }),
    {
        match self.experience_rewards.get(&id) {
            Some(v) => *v,
            None => 0,
        }
    }

    pub fn direct_melee_interval_millis(&self, id: u32) -> (r: Option<u32>)
        ensures
            r == (if self@.melee_intervals.contains_key(id) { Some(self@.melee_intervals[id]) } else { None }),
    {
        match self.direct_melee_intervals_millis.get(&id) {
            Some(v) => Some(*v),
            None => None,
        }
    }

    pub fn direct_melee_damage_range(&self, id: u32) -> (r: Option<StaticCreatureDirectMeleeDamageRange>)
        ensures
            r == (if self@.damage_ranges.contains_key(id) { Some(self@.damage_ranges[id]) } else { None }),
    {
        match self.direct_melee_damage_ranges.get(&id) {
            Some(v) => Some(*v),
            None => None,
        }
    }

    /// The loot table of an identifier, empty when none is declared.
    pub fn loot_table(&self, id: u32) -> (r: Vec<StaticCreatureLootEntry>)
        ensures
            r@ == (if self@.loot_tables.contains_key(id) { self@.loot_tables[id] } else { Seq::empty() }),
    {
        match self.loot_tables.get(&id) {
            Some(t) => copy_loot(t),
            None => Vec::new(),
        }
    }

    pub fn is_npc(&self, id: u32) -> (r: bool)
        ensures
            r == self@.npc_ids.contains(id),
    {
        self.npc_ids.contains(&id)
    }

    /// The entities standing at a position, in collection order.
    pub fn at(&self, position: Position) -> (r: Vec<&FeTfsStaticEntity>)
        ensures
            r@.len() == self@.entities.filter(|e: FeTfsStaticEntity| e.position == position).len(),
            forall|i: int| 0 <= i < r@.len()
                ==> *r@[i] == self@.entities.filter(|e: FeTfsStaticEntity| e.position == position)[i],
    {
        let mut out: Vec<&FeTfsStaticEntity> = Vec::new();
        let mut i: usize = 0;
        while i < self.entities.len()
            invariant
                i <= self.entities@.len(),
                out@.len() == self.entities@.take(i as int).filter(|e: FeTfsStaticEntity| e.position == position).len(),
                forall|j: int| 0 <= j < out@.len()
                    ==> *out@[j] == self.entities@.take(i as int).filter(|e: FeTfsStaticEntity| e.position == position)[j],
            decreases self.entities.len() - i,
        {
            let e = &self.entities[i];
            proof {
                let q = self.entities@.take(i + 1);
                assert(q.drop_last() =~= self.entities@.take(i as int));
                reveal(Seq::filter);
            }
            if e.position == position {
                out.push(e);
            }
            i = i + 1;
        }
        proof { assert(self.entities@.take(self.entities@.len() as int) =~= self.entities@); }
        out
    }
}

/// Copies a loot table.
pub(crate) fn copy_loot(v: &Vec<StaticCreatureLootEntry>) -> (r: Vec<StaticCreatureLootEntry>)
    ensures
        r@ == v@,
{
    let mut out: Vec<StaticCreatureLootEntry> = Vec::new();
    let mut i: usize = 0;
    while i < v.len()
        invariant
            i <= v@.len(),
            out@ =~= v@.take(i as int),
        decreases v.len() - i,
    {
        out.push(v[i]);
        i = i + 1;
    }
    assert(v@.take(v@.len() as int) =~= v@);
    out
}


/// The lower-cased names of a sequence of entities.
pub open spec fn names_of(es: Seq<FeTfsStaticEntity>) -> Set<Seq<char>> {
    Set::new(|n: Seq<char>| exists|i: int| 0 <= i < es.len() && lowercase_text(#[trigger] es[i].name@) == n)
}

/// A template joins a collection when neither its identifier nor its lower-cased name is taken.
pub open spec fn template_kept(existing: Seq<FeTfsStaticEntity>, t: FeTfsStaticEntity) -> bool {
    !ids_of(existing).contains(t.id) && !names_of(existing).contains(lowercase_text(t.name@))
}

pub open spec fn kept_templates(existing: Seq<FeTfsStaticEntity>, ts: Seq<FeTfsStaticEntity>) -> Seq<FeTfsStaticEntity> {
    ts.filter(|t: FeTfsStaticEntity| template_kept(existing, t))
}

/// The collection after merging the kept templates with their metadata.
pub open spec fn extended(c: SpawnCollectionView, t: SpawnCollectionView) -> SpawnCollectionView {
    let kept = kept_templates(c.entities, t.entities);
    let ids = ids_of(kept);
    SpawnCollectionView {
        entities: c.entities + kept,
        experience_rewards: c.experience_rewards.union_prefer_right(t.experience_rewards.restrict(ids)),
        melee_intervals: c.melee_intervals.union_prefer_right(t.melee_intervals.restrict(ids)),
        damage_ranges: c.damage_ranges.union_prefer_right(t.damage_ranges.restrict(ids)),
        loot_tables: c.loot_tables.union_prefer_right(t.loot_tables.restrict(ids)),
        ..c
    }
}

impl FeTfsStaticSpawnCollection {
    /// The lower-cased names of the entities, in order.
    fn lowered_names(&self) -> (r: Vec<String>)
        ensures
            r@.len() == self@.entities.len(),
            forall|i: int| 0 <= i < r@.len() ==> (#[trigger] r@[i])@ == lowercase_text(self@.entities[i].name@),
    {
        let mut out: Vec<String> = Vec::new();
        let mut i: usize = 0;
        while i < self.entities.len()
            invariant
                i <= self.entities@.len(),
                out@.len() == i,
                forall|j: int| 0 <= j < i ==> (#[trigger] out@[j])@ == lowercase_text(self.entities@[j].name@),
            decreases self.entities.len() - i,
        {
            out.push(lowercase(self.entities[i].name.as_str()));
            i = i + 1;
        }
        out
    }

    /// Merges operator-summon templates whose identifiers and lower-cased names are not taken,
    /// with their rewards, melee metadata and loot tables.
    pub fn extend_templates(&mut self, templates: FeTfsStaticSpawnCollection) -> (r: Result<(), CoreError>)
        ensures
            r is Ok,
            final(self)@ == extended(old(self)@, templates@),
    {
        let ghost c0 = self@;
        let ghost tv = templates@;
        let ids = self.entity_id_set();
        let names = self.lowered_names();
        let mut i: usize = 0;
        proof {
            assert(kept_templates(c0.entities, tv.entities.take(0)) =~= Seq::<FeTfsStaticEntity>::empty());
            assert(ids_of(Seq::<FeTfsStaticEntity>::empty()) =~= Set::<u32>::empty());
            assert(self@ =~= extended(c0, SpawnCollectionView { entities: tv.entities.take(0), ..tv }));
        }
        while i < templates.entities.len()
            invariant
                i <= tv.entities.len(),
                tv == templates@,
                ids@ == ids_of(c0.entities),
                names@.len() == c0.entities.len(),
                forall|j: int| 0 <= j < names@.len() ==> (#[trigger] names@[j])@ == lowercase_text(c0.entities[j].name@),
                self@ == extended(c0, SpawnCollectionView { entities: tv.entities.take(i as int), ..tv }),
            decreases tv.entities.len() - i,
        {
            let t = &templates.entities[i];
            let lowered = lowercase(t.name.as_str());
            let mut taken_name = false;
            let mut k: usize = 0;
            while k < names.len()
                invariant
                    k <= names@.len(),
                    names@.len() == c0.entities.len(),
                    forall|j: int| 0 <= j < names@.len() ==> (#[trigger] names@[j])@ == lowercase_text(c0.entities[j].name@),
                    taken_name == exists|j: int| 0 <= j < k && names@[j]@ == lowered@,
                decreases names.len() - k,
            {
                if names[k] == lowered {
                    taken_name = true;
                }
                k = k + 1;
            }
            proof {
                assert(taken_name == names_of(c0.entities).contains(lowercase_text(t.name@))) by {
                    if taken_name {
                        let j = choose|j: int| 0 <= j < names@.len() && names@[j]@ == lowered@;
                        assert(lowercase_text(c0.entities[j].name@) == lowercase_text(t.name@));
                    }
                    if names_of(c0.entities).contains(lowercase_text(t.name@)) {
                        let j = choose|j: int| 0 <= j < c0.entities.len() && lowercase_text(#[trigger] c0.entities[j].name@)
                            == lowercase_text(t.name@);
                        assert(names@[j]@ == lowered@);
                    }
                }
            }
            let ghost before = self@;
            let ghost p = tv.entities.take(i as int);
            let ghost q = tv.entities.take(i + 1);
            proof {
                assert(q.drop_last() =~= p);
                assert(q.last() == *t);
                reveal(Seq::filter);
            }
            if !ids.contains(&t.id) && !taken_name {
                let id = t.id;
                if let Some(v) = templates.experience_rewards.get(&id) {
                    self.experience_rewards.insert(id, *v);
                }
                if let Some(v) = templates.direct_melee_intervals_millis.get(&id) {
                    self.direct_melee_intervals_millis.insert(id, *v);
                }
                if let Some(v) = templates.direct_melee_damage_ranges.get(&id) {
                    self.direct_melee_damage_ranges.insert(id, *v);
                }
                if let Some(v) = templates.loot_tables.get(&id) {
                    let copy = copy_loot(v);
                    let ghost lb = self.loot_tables@;
                    self.loot_tables.insert(id, copy);
                    proof {
                        assert(loot_view(self.loot_tables@) =~= loot_view(lb).insert(id, v@));
                        assert(tv.loot_tables[id] == v@);
                    }
                }
                self.entities.push(t.duplicate());
                proof {
                    let kp = kept_templates(c0.entities, p);
                    let kq = kept_templates(c0.entities, q);
                    assert(kq =~= kp.push(*t));
                    assert forall|x: u32| ids_of(kq).contains(x) <==> ids_of(kp).insert(id).contains(x) by {
                        if ids_of(kq).contains(x) {
                            let j = choose|j: int| 0 <= j < kq.len() && #[trigger] kq[j].id == x;
                            if j < kp.len() { assert(kp[j].id == x); }
                        }
                        if ids_of(kp).contains(x) {
                            let j = choose|j: int| 0 <= j < kp.len() && #[trigger] kp[j].id == x;
                            assert(kq[j].id == x);
                        }
                        if x == id { assert(kq[kp.len() as int].id == x); }
                    }
                    assert(ids_of(kq) =~= ids_of(kp).insert(id));
                    assert(self@.entities =~= c0.entities + kq);
                    assert(self@.experience_rewards =~= c0.experience_rewards.union_prefer_right(tv.experience_rewards.restrict(ids_of(kq))));
                    assert(self@.melee_intervals =~= c0.melee_intervals.union_prefer_right(tv.melee_intervals.restrict(ids_of(kq))));
                    assert(self@.damage_ranges =~= c0.damage_ranges.union_prefer_right(tv.damage_ranges.restrict(ids_of(kq))));
                    assert(self@.loot_tables =~= c0.loot_tables.union_prefer_right(tv.loot_tables.restrict(ids_of(kq))));
                    assert(self@ =~= extended(c0, SpawnCollectionView { entities: q, ..tv }));
                }
            } else {
                proof {
                    assert(kept_templates(c0.entities, q) =~= kept_templates(c0.entities, p));
                    assert(self@ =~= extended(c0, SpawnCollectionView { entities: q, ..tv }));
                }
            }
            i = i + 1;
        }
        proof {
            assert(tv.entities.take(tv.entities.len() as int) =~= tv.entities);
            assert(SpawnCollectionView { entities: tv.entities, ..tv } == tv);
        }
        Ok(())
    }
}


/// Each entity on its own is acceptable: a non-blank name and a health of at most 100.
pub open spec fn entity_acceptable(e: FeTfsStaticEntity) -> bool {
    !spec_is_blank(e.name@) && e.health_percent <= 100
}

/// No entity is refused exactly when every entity is acceptable and no identifier repeats.
proof fn lemma_entity_error_none(es: Seq<FeTfsStaticEntity>)
    ensures
        entity_error(es) is None <==> ((forall|i: int| 0 <= i < es.len() ==> entity_acceptable(#[trigger] es[i]))
            && forall|i: int, j: int| 0 <= i < j < es.len() ==> #[trigger] es[i].id != #[trigger] es[j].id),
    decreases es.len(),
{
    if es.len() > 0 {
        let p = es.drop_last();
        let e = es.last();
        lemma_entity_error_none(p);
        assert forall|i: int| 0 <= i < p.len() implies #[trigger] p[i] == es[i] by {}
        if entity_error(es) is None {
            assert(entity_error(p) is None);
            assert(!ids_of(p).contains(e.id));
            assert forall|i: int, j: int| 0 <= i < j < es.len() implies #[trigger] es[i].id != #[trigger] es[j].id by {
                if j == es.len() - 1 {
                    assert(p[i] == es[i]);
                    if es[i].id == e.id {
                        assert(ids_of(p).contains(e.id));
                    }
                } else {
                    assert(p[i] == es[i] && p[j] == es[j]);
                }
            }
            assert forall|i: int| 0 <= i < es.len() implies entity_acceptable(#[trigger] es[i]) by {
                if i < es.len() - 1 {
                    assert(p[i] == es[i]);
                }
            }
        }
        if (forall|i: int| 0 <= i < es.len() ==> entity_acceptable(#[trigger] es[i]))
            && forall|i: int, j: int| 0 <= i < j < es.len() ==> #[trigger] es[i].id != #[trigger] es[j].id {
            assert forall|i: int| 0 <= i < p.len() implies entity_acceptable(#[trigger] p[i]) by {
                assert(p[i] == es[i]);
            }
            assert forall|i: int, j: int| 0 <= i < j < p.len() implies #[trigger] p[i].id != #[trigger] p[j].id by {
                assert(p[i] == es[i] && p[j] == es[j]);
            }
            assert(entity_acceptable(es[es.len() - 1]));
            if ids_of(p).contains(e.id) {
                let i = choose|i: int| 0 <= i < p.len() && #[trigger] p[i].id == e.id;
                assert(es[i].id == es[es.len() - 1].id);
            }
        }
    }
}

/// A collection is built exactly when it holds at most the spawn limit of entities, each with a
/// non-blank name and a health of at most 100, no identifier twice, and metadata that speaks only
/// of its identifiers (nonzero melee intervals, ordered damage ranges, loot only for non-NPC
/// creatures with bounded valid entries); a built collection keeps every input.
pub proof fn law_collection_acceptance(r: Result<FeTfsStaticSpawnCollection, CoreError>, c: SpawnCollectionView)
    requires
        built(r, c),
    ensures
        r is Ok <==> (c.entities.len() <= MAX_TFS_STATIC_SPAWNS
            && (forall|i: int| 0 <= i < c.entities.len() ==> entity_acceptable(#[trigger] c.entities[i]))
            && (forall|i: int, j: int| 0 <= i < j < c.entities.len() ==> #[trigger] c.entities[i].id != #[trigger] c.entities[j].id)
            && metadata_valid(ids_of(c.entities), c)),
        r is Ok ==> r->Ok_0@ == c,
{
    lemma_entity_error_none(c.entities);
}

} // verus!
