//! Properties of the static-creature transitions that span calls.

use vstd::prelude::*;
use crate::creatures::{StaticCreatureRuntime, StaticCreatureRuntimeSnapshot, StaticCreatureLootEntry};
use crate::geometry::{CardinalDirection, Position, spec_adjacent, spec_step, diff, lemma_step_is_adjacent_and_reversible};
use crate::map::WorldMapView;
use crate::world::WorldModel;
use crate::world::statics::{Creatures, ResetState, occupancy, move_result, after_deactivation, after_reset,
    untargeted, lcg, count_span, loot_run, loot_seed, rolled_items, record_ids, record_error, records_error,
    known_records, unrestored_occupancy, apply_records, restored, record_changes, restore_result, runtime_snapshots,
    snapshot_of, creatures_sound, creature_sound};
use crate::creatures::StaticCreatureRuntimeRestoreSummary;
use crate::keys::{sorted_u32, strictly_increasing_u32};
use crate::creatures::StaticCreatureMoveDecision;
use crate::map::walkable;
use crate::world::lifecycle::position_taken;
use crate::world::statics::{pick_from, plan_run, planned, active_ids, placement_error};
use crate::progression::{Player, PlayerVitals, PlayerProgression, vitals_valid, living_state};
use crate::world::lifecycle::{registration_error, with_new_player};
use crate::text::spec_is_blank;
use crate::conditions::ConditionView;

verus! {

/// The recorded occupancy is the set of positions of the active creatures.
pub open spec fn occupancy_in_sync(m: WorldModel) -> bool {
    m.static_occupied == occupancy(m.static_creatures)
}

/// Changing a creature without changing whether it is active or where it stands keeps occupancy.
pub proof fn lemma_occupancy_same(cs: Creatures, id: u32, c: StaticCreatureRuntime)
    requires
        cs.contains_key(id),
        c.active == cs[id].active,
        c.entity.position == cs[id].entity.position,
    ensures
        occupancy(cs.insert(id, c)) == occupancy(cs),
{
    let cs2 = cs.insert(id, c);
    assert forall|k: (u16, u16, u8)| occupancy(cs2).contains(k) <==> occupancy(cs).contains(k) by {
        if occupancy(cs2).contains(k) {
            let x = choose|x: u32| cs2.contains_key(x) && cs2[x].active && #[trigger] crate::geometry::position_key(cs2[x].entity.position) == k;
            assert(cs.contains_key(x) && cs[x].active && crate::geometry::position_key(cs[x].entity.position) == k);
        }
        if occupancy(cs).contains(k) {
            let x = choose|x: u32| cs.contains_key(x) && cs[x].active && #[trigger] crate::geometry::position_key(cs[x].entity.position) == k;
            assert(cs2.contains_key(x) && cs2[x].active && crate::geometry::position_key(cs2[x].entity.position) == k);
        }
    }
    assert(occupancy(cs2) =~= occupancy(cs));
}

/// An explicit cardinal step keeps the recorded occupancy equal to the active creatures'
/// positions, whether it is applied or refused.
pub proof fn law_move_keeps_occupancy(m: WorldModel, id: u32, d: CardinalDirection, map: WorldMapView)
    requires
        occupancy_in_sync(m),
    ensures
        occupancy_in_sync(move_result(m, id, d, map).1),
{
}

/// Deactivation keeps the recorded occupancy equal to the active creatures' positions.
pub proof fn law_deactivation_keeps_occupancy(m: WorldModel, id: u32)
    requires
        m.static_creatures.contains_key(id),
    ensures
        occupancy_in_sync(after_deactivation(m, id)),
{
}

/// A reset or a due reactivation keeps the recorded occupancy equal to the active creatures'
/// positions.
pub proof fn law_reset_keeps_occupancy(m: WorldModel, st: ResetState)
    ensures
        occupancy_in_sync(after_reset(m, st)),
{
}

/// Clearing a creature's target keeps the recorded occupancy in sync.
pub proof fn law_untargeting_keeps_occupancy(m: WorldModel, id: u32)
    requires
        occupancy_in_sync(m),
        m.static_creatures.contains_key(id),
    ensures
        occupancy_in_sync(untargeted(m, id)),
{
    let c = m.static_creatures[id];
    lemma_occupancy_same(m.static_creatures, id, StaticCreatureRuntime { target_player_id: None, ..c });
}

/// One loot step never drops more items than entries and every dropped pair names an entry's
/// item with a count inside that entry's inclusive bounds.
pub open spec fn drops_within(entries: Seq<StaticCreatureLootEntry>, items: Seq<(u16, u16)>) -> bool {
    &&& items.len() <= entries.len()
    &&& forall|i: int| 0 <= i < items.len() ==> exists|j: int| 0 <= j < entries.len()
        && #[trigger] items[i].0 == entries[j].item_id
        && (entries[j].min_count <= entries[j].max_count ==> entries[j].min_count <= items[i].1 <= entries[j].max_count)
}

/// Loot rolls drop at most one stack per entry, each an entry's item with a count inside the
/// entry's inclusive bounds.
pub proof fn law_loot_within_bounds(state: u64, entries: Seq<StaticCreatureLootEntry>)
    ensures
        drops_within(entries, loot_run(state, entries).1),
    decreases entries.len(),
{
    if entries.len() > 0 {
        let prev = entries.drop_last();
        law_loot_within_bounds(state, prev);
        let (s1, items) = loot_run(state, prev);
        let e = entries.last();
        let out = loot_run(state, entries).1;
        assert forall|i: int| 0 <= i < out.len() implies exists|j: int| 0 <= j < entries.len()
            && #[trigger] out[i].0 == entries[j].item_id
            && (entries[j].min_count <= entries[j].max_count ==> entries[j].min_count <= out[i].1 <= entries[j].max_count) by {
            if i < items.len() {
                assert(out[i] == items[i]);
                let j = choose|j: int| 0 <= j < prev.len() && #[trigger] items[i].0 == prev[j].item_id
                    && (prev[j].min_count <= prev[j].max_count ==> prev[j].min_count <= items[i].1 <= prev[j].max_count);
                assert(entries[j] == prev[j]);
            } else {
                let k = entries.len() - 1;
                assert(entries[k] == e);
                let s3 = lcg(lcg(s1));
                let x = (s3 >> 33u64) % count_span(e);
                assert(x < count_span(e));
                assert(out[i] == (e.item_id, (e.min_count + x) as u16));
            }
        }
    }
}

/// A creature's rolled loot stays within its table's bounds.
pub proof fn law_rolled_loot_within_bounds(c: StaticCreatureRuntime, id: u32, seed: u64)
    ensures
        drops_within(c.loot@, rolled_items(c, id, seed)),
{
    if !(c.is_npc || c.loot@.len() == 0) {
        law_loot_within_bounds(loot_seed(seed, id, c.entity.position), c.loot@);
    }
}


/// Records have distinct identifiers.
pub open spec fn distinct_ids(rs: Seq<StaticCreatureRuntimeSnapshot>) -> bool {
    forall|i: int, j: int| 0 <= i < j < rs.len() ==> #[trigger] rs[i].id != #[trigger] rs[j].id
}

/// Every record of a sequence that names an installed creature fits it.
pub open spec fn records_fit(cs: Creatures, rs: Seq<StaticCreatureRuntimeSnapshot>) -> bool {
    forall|i: int| 0 <= i < rs.len() && cs.contains_key(#[trigger] rs[i].id) ==> record_error(cs[rs[i].id], rs[i]) is None
}

proof fn lemma_records_valid(cs: Creatures, rs: Seq<StaticCreatureRuntimeSnapshot>)
    requires
        records_error(cs, rs) is None,
    ensures
        distinct_ids(rs),
        records_fit(cs, rs),
    decreases rs.len(),
{
    if rs.len() > 0 {
        let p = rs.drop_last();
        lemma_records_valid(cs, p);
        let last = rs.last();
        assert(!record_ids(p).contains(last.id));
        assert forall|i: int, j: int| 0 <= i < j < rs.len() implies #[trigger] rs[i].id != #[trigger] rs[j].id by {
            if j < rs.len() - 1 {
                assert(p[i] == rs[i] && p[j] == rs[j]);
            } else {
                assert(p[i] == rs[i]);
                if rs[i].id == last.id { assert(record_ids(p).contains(last.id)); }
            }
        }
        assert forall|i: int| 0 <= i < rs.len() && cs.contains_key(#[trigger] rs[i].id)
            implies record_error(cs[rs[i].id], rs[i]) is None by {
            if i < rs.len() - 1 { assert(p[i] == rs[i]); }
        }
    }
}

/// Records that agree on intervals and cooldowns are validated alike.
proof fn lemma_records_error_same(cs: Creatures, cs2: Creatures, rs: Seq<StaticCreatureRuntimeSnapshot>)
    requires
        cs2.dom() == cs.dom(),
        forall|id: u32| #[trigger] cs.contains_key(id) ==> cs2[id].respawn_interval_seconds == cs[id].respawn_interval_seconds
            && cs2[id].melee_cooldown_ticks == cs[id].melee_cooldown_ticks,
    ensures
        records_error(cs2, rs) == records_error(cs, rs),
    decreases rs.len(),
{
    if rs.len() > 0 {
        lemma_records_error_same(cs, cs2, rs.drop_last());
        let r = rs.last();
        if cs.contains_key(r.id) {
            assert(record_error(cs2[r.id], r) == record_error(cs[r.id], r));
        }
    }
}

/// The known records are a subsequence of the records, with the known predicate.
proof fn lemma_known_records(cs: Creatures, rs: Seq<StaticCreatureRuntimeSnapshot>)
    ensures
        forall|i: int| 0 <= i < known_records(cs, rs).len() ==> cs.contains_key(#[trigger] known_records(cs, rs)[i].id)
            && rs.contains(known_records(cs, rs)[i]),
        distinct_ids(rs) ==> distinct_ids(known_records(cs, rs)),
        record_ids(known_records(cs, rs)).subset_of(record_ids(rs)),
    decreases rs.len(),
{
    reveal(Seq::filter);
    if rs.len() > 0 {
        let p = rs.drop_last();
        lemma_known_records(cs, p);
        let kp = known_records(cs, p);
        let k = known_records(cs, rs);
        let last = rs.last();
        assert(k == (if cs.contains_key(last.id) { kp.push(last) } else { kp }));
        assert forall|i: int| 0 <= i < k.len() implies cs.contains_key(#[trigger] k[i].id) && rs.contains(k[i]) by {
            if i < kp.len() {
                assert(k[i] == kp[i]);
                let j = choose|j: int| 0 <= j < p.len() && p[j] == kp[i];
                assert(rs[j] == p[j]);
            } else {
                assert(rs[rs.len() - 1] == last);
            }
        }
        assert forall|x: u32| record_ids(k).contains(x) implies record_ids(rs).contains(x) by {
            let i = choose|i: int| 0 <= i < k.len() && #[trigger] k[i].id == x;
            let j = choose|j: int| 0 <= j < rs.len() && rs[j] == k[i];
            assert(rs[j].id == x);
        }
        if distinct_ids(rs) {
            assert(distinct_ids(p)) by {
                assert forall|i: int, j: int| 0 <= i < j < p.len() implies #[trigger] p[i].id != #[trigger] p[j].id by {
                    assert(rs[i] == p[i] && rs[j] == p[j]);
                }
            }
            if cs.contains_key(last.id) {
                assert forall|i: int, j: int| 0 <= i < j < k.len() implies #[trigger] k[i].id != #[trigger] k[j].id by {
                    if j < kp.len() {
                        assert(k[i] == kp[i] && k[j] == kp[j]);
                    } else {
                        assert(k[i] == kp[i]);
                        if kp[i].id == last.id {
                            assert(record_ids(kp).contains(last.id));
                            assert(record_ids(p).contains(last.id));
                            let q = choose|q: int| 0 <= q < p.len() && #[trigger] p[q].id == last.id;
                            assert(rs[q] == p[q]);
                            assert(rs[q].id == rs[rs.len() - 1].id);
                        }
                    }
                }
            }
        }
    }
}

/// Applying records keeps the identifiers, intervals and cooldowns, leaves creatures no record
/// names untouched, and (with distinct identifiers) restores each named creature from its record.
proof fn lemma_apply_records(cs: Creatures, known: Seq<StaticCreatureRuntimeSnapshot>, tick: u64)
    ensures
        apply_records(cs, known, tick).0.dom() == cs.dom(),
        forall|id: u32| #[trigger] cs.contains_key(id) ==> apply_records(cs, known, tick).0[id].respawn_interval_seconds
            == cs[id].respawn_interval_seconds
            && apply_records(cs, known, tick).0[id].melee_cooldown_ticks == cs[id].melee_cooldown_ticks,
        forall|id: u32| #[trigger] cs.contains_key(id) && !record_ids(known).contains(id)
            ==> apply_records(cs, known, tick).0[id] == cs[id],
        distinct_ids(known) ==> forall|i: int| 0 <= i < known.len() && cs.contains_key(#[trigger] known[i].id)
            ==> apply_records(cs, known, tick).0[known[i].id] == restored(cs[known[i].id], known[i], tick),
    decreases known.len(),
{
    if known.len() > 0 {
        let p = known.drop_last();
        lemma_apply_records(cs, p, tick);
        let c1 = apply_records(cs, p, tick).0;
        let r = known.last();
        let c2 = apply_records(cs, known, tick).0;
        assert forall|id: u32| #[trigger] cs.contains_key(id) && !record_ids(known).contains(id) implies c2[id] == cs[id] by {
            assert(id != r.id) by { assert(known[known.len() - 1] == r); }
            assert(!record_ids(p).contains(id)) by {
                if record_ids(p).contains(id) {
                    let i = choose|i: int| 0 <= i < p.len() && #[trigger] p[i].id == id;
                    assert(known[i] == p[i]);
                }
            }
        }
        if distinct_ids(known) {
            assert(distinct_ids(p)) by {
                assert forall|i: int, j: int| 0 <= i < j < p.len() implies #[trigger] p[i].id != #[trigger] p[j].id by {
                    assert(known[i] == p[i] && known[j] == p[j]);
                }
            }
            assert forall|i: int| 0 <= i < known.len() && cs.contains_key(#[trigger] known[i].id)
                implies c2[known[i].id] == restored(cs[known[i].id], known[i], tick) by {
                if i < known.len() - 1 {
                    assert(known[i] == p[i]);
                    assert(known[i].id != r.id) by { assert(known[known.len() - 1] == r); }
                } else {
                    assert(known[i] == r);
                    assert(!record_ids(p).contains(r.id)) by {
                        if record_ids(p).contains(r.id) {
                            let q = choose|q: int| 0 <= q < p.len() && #[trigger] p[q].id == r.id;
                            assert(known[q] == p[q]);
                        }
                    }
                    assert(c1[r.id] == cs[r.id]);
                }
            }
        }
    }
}

/// Restoring a record onto its own restoration changes nothing.
proof fn lemma_restored_fixed(c: StaticCreatureRuntime, r: StaticCreatureRuntimeSnapshot, tick: u64)
    requires
        record_error(c, r) is None,
    ensures
        restored(restored(c, r, tick), r, tick) == restored(c, r, tick),
        !record_changes(restored(c, r, tick), r, tick),
{
}

/// Applying the records again to their own result changes nothing.
proof fn lemma_apply_records_fixed(cs: Creatures, cs2: Creatures, known: Seq<StaticCreatureRuntimeSnapshot>, tick: u64)
    requires
        distinct_ids(known),
        forall|i: int| 0 <= i < known.len() ==> cs.contains_key(#[trigger] known[i].id),
        records_fit(cs, known),
        cs2.dom() == cs.dom(),
        forall|i: int| 0 <= i < known.len() ==> cs2[#[trigger] known[i].id] == restored(cs[known[i].id], known[i], tick),
    ensures
        apply_records(cs2, known, tick) == (cs2, false),
    decreases known.len(),
{
    if known.len() > 0 {
        let p = known.drop_last();
        assert forall|i: int, j: int| 0 <= i < j < p.len() implies #[trigger] p[i].id != #[trigger] p[j].id by {
            assert(known[i] == p[i] && known[j] == p[j]);
        }
        assert forall|i: int| 0 <= i < p.len() implies cs.contains_key(#[trigger] p[i].id)
            && cs2[p[i].id] == restored(cs[p[i].id], p[i], tick) by {
            assert(known[i] == p[i]);
        }
        assert forall|i: int| 0 <= i < p.len() && cs.contains_key(#[trigger] p[i].id) implies record_error(cs[p[i].id], p[i]) is None by {
            assert(known[i] == p[i]);
        }
        lemma_apply_records_fixed(cs, cs2, p, tick);
        let r = known.last();
        assert(known[known.len() - 1] == r);
        lemma_restored_fixed(cs[r.id], r, tick);
        assert(cs2.insert(r.id, restored(cs2[r.id], r, tick)) =~= cs2);
    }
}

/// Restoring the same records a second time gives the same result and changes nothing more.
pub proof fn law_restore_is_idempotent(m: WorldModel, rs: Seq<StaticCreatureRuntimeSnapshot>)
    requires
        restore_result(m, rs) is Ok,
    ensures
        restore_result(restore_result(m, rs)->Ok_0.1, rs) == restore_result(m, rs),
{
    let cs = m.static_creatures;
    let known = known_records(cs, rs);
    let (cs2, changed) = apply_records(cs, known, m.tick);
    let w = restore_result(m, rs)->Ok_0.1;
    lemma_records_valid(cs, rs);
    lemma_known_records(cs, rs);
    lemma_apply_records(cs, known, m.tick);
    assert(w.static_creatures == cs2);
    assert(w.players == m.players && w.tick == m.tick);
    lemma_records_error_same(cs, cs2, rs);
    let pred1 = |r: StaticCreatureRuntimeSnapshot| cs.contains_key(r.id);
    let pred2 = |r: StaticCreatureRuntimeSnapshot| cs2.contains_key(r.id);
    assert(pred1 =~= pred2);
    assert(known_records(cs2, rs) == known);
    assert(unrestored_occupancy(cs2, known) =~= unrestored_occupancy(cs, known)) by {
        assert forall|k: (u16, u16, u8)| unrestored_occupancy(cs2, known).contains(k) implies unrestored_occupancy(cs, known).contains(k) by {
            let id = choose|id: u32| cs2.contains_key(id) && cs2[id].active && !record_ids(known).contains(id)
                && #[trigger] crate::geometry::position_key(cs2[id].entity.position) == k;
            assert(cs2[id] == cs[id]);
        }
        assert forall|k: (u16, u16, u8)| unrestored_occupancy(cs, known).contains(k) implies unrestored_occupancy(cs2, known).contains(k) by {
            let id = choose|id: u32| cs.contains_key(id) && cs[id].active && !record_ids(known).contains(id)
                && #[trigger] crate::geometry::position_key(cs[id].entity.position) == k;
            assert(cs2[id] == cs[id]);
        }
    }
    assert forall|i: int| 0 <= i < known.len() && cs.contains_key(#[trigger] known[i].id)
        implies record_error(cs[known[i].id], known[i]) is None by {
        let j = choose|j: int| 0 <= j < rs.len() && rs[j] == known[i];
        assert(cs.contains_key(rs[j].id));
    }
    lemma_apply_records_fixed(cs, cs2, known, m.tick);
    assert(apply_records(cs2, known, w.tick) == (cs2, false));
    assert(WorldModel { static_creatures: cs2, ..w } == w);
}


/// The direct step of a creature toward its target goes to an adjacent tile of its floor that is
/// closer to the target.
pub proof fn law_direct_step_reduces_distance(m: WorldModel, id: u32, map: WorldMapView, s: Position, t: Position)
    requires
        crate::world::statics::direct_step(m, id, map, s, t) is Some,
    ensures
        ({
            let d = crate::world::statics::direct_step(m, id, map, s, t)->0;
            let dest = spec_step(s, d)->0;
            &&& spec_step(s, d) is Some
            &&& spec_adjacent(s, dest)
            &&& diff(dest.x as int, t.x as int) + diff(dest.y as int, t.y as int)
                < diff(s.x as int, t.x as int) + diff(s.y as int, t.y as int)
        }),
{
    let d = crate::world::statics::direct_step(m, id, map, s, t)->0;
    lemma_step_is_adjacent_and_reversible(s, d);
}

/// Records that all name installed creatures are all known.
proof fn lemma_all_known(cs: Creatures, rs: Seq<StaticCreatureRuntimeSnapshot>)
    requires
        forall|i: int| 0 <= i < rs.len() ==> cs.contains_key(#[trigger] rs[i].id),
    ensures
        known_records(cs, rs) == rs,
    decreases rs.len(),
{
    reveal(Seq::filter);
    if rs.len() > 0 {
        let p = rs.drop_last();
        assert forall|i: int| 0 <= i < p.len() implies cs.contains_key(#[trigger] p[i].id) by {
            assert(rs[i] == p[i]);
        }
        lemma_all_known(cs, p);
        assert(cs.contains_key(rs[rs.len() - 1].id));
        assert(p.push(rs.last()) =~= rs);
    }
}

/// A planned step: the creature is active and a step from where it stands in the decision's
/// direction reaches a walkable tile that no player holds.
pub open spec fn planned_step_ok(m: WorldModel, map: WorldMapView, d: StaticCreatureMoveDecision) -> bool {
    &&& m.static_creatures.contains_key(d.creature_id)
    &&& m.static_creatures[d.creature_id].active
    &&& match spec_step(m.static_creatures[d.creature_id].entity.position, d.direction) {
        Some(p) => walkable(map, p) && !position_taken(m.players, p),
        None => false,
    }
}

/// A picked step reaches a walkable tile that neither a player nor a taken position holds.
proof fn lemma_pick_from(map: WorldMapView, players: Map<u64, Player>, occ: Set<(u16, u16, u8)>, s: Position, id: u32,
    tick: u64, step: int)
    ensures
        match pick_from(map, players, occ, s, id, tick, step) {
            Some((d, p)) => spec_step(s, d) == Some(p) && walkable(map, p) && !position_taken(players, p)
                && !occ.contains(crate::geometry::position_key(p)),
            None => true,
        },
    decreases 4 - step,
{
    if 0 <= step < 4 {
        lemma_pick_from(map, players, occ, s, id, tick, step + 1);
    }
}

/// The active creatures among a list of identifiers.
pub open spec fn active_among(m: WorldModel, ids: Seq<u32>) -> Set<u32> {
    ids.to_set().filter(|k: u32| m.static_creatures[k].active)
}

proof fn lemma_plan_run(m: WorldModel, map: WorldMapView, occ: Set<(u16, u16, u8)>, ids: Seq<u32>)
    requires
        strictly_increasing_u32(ids),
        forall|i: int| 0 <= i < ids.len() ==> m.static_creatures.contains_key(#[trigger] ids[i]),
    ensures
        ({
            let r = plan_run((occ, Seq::empty(), 0), m, map, ids);
            &&& active_among(m, ids).finite()
            &&& r.1.len() + r.2 == active_among(m, ids).len()
            &&& forall|j: int| 0 <= j < r.1.len() ==> planned_step_ok(m, map, #[trigger] r.1[j])
                && ids.contains(r.1[j].creature_id)
            &&& forall|j: int, k: int| 0 <= j < k < r.1.len() ==> #[trigger] r.1[j].creature_id < #[trigger] r.1[k].creature_id
        }),
    decreases ids.len(),
{
    if ids.len() == 0 {
        assert(active_among(m, ids) =~= Set::<u32>::empty());
    } else {
        let p = ids.drop_last();
        let last = ids.last();
        assert forall|i: int| 0 <= i < p.len() implies m.static_creatures.contains_key(#[trigger] p[i]) by {
            assert(ids[i] == p[i]);
        }
        lemma_plan_run(m, map, occ, p);
        let st = plan_run((occ, Seq::empty(), 0), m, map, p);
        let r = plan_run((occ, Seq::empty(), 0), m, map, ids);
        assert(r == crate::world::statics::plan_one(st, m, map, last));
        assert(!p.contains(last)) by {
            if p.contains(last) {
                let q = choose|q: int| 0 <= q < p.len() && p[q] == last;
                assert(ids[q] < ids[ids.len() - 1]);
            }
        }
        assert forall|x: u32| p.contains(x) implies ids.contains(x) && x < last by {
            let q = choose|q: int| 0 <= q < p.len() && p[q] == x;
            assert(ids[q] == x);
            assert(ids[q] < ids[ids.len() - 1]);
        }
        assert(ids.contains(last)) by { assert(ids[ids.len() - 1] == last); }
        let c = m.static_creatures[last];
        if c.active {
            assert(active_among(m, ids) =~= active_among(m, p).insert(last)) by {
                assert forall|x: u32| ids.to_set().contains(x) <==> (p.to_set().contains(x) || x == last) by {
                    if ids.contains(x) {
                        let q = choose|q: int| 0 <= q < ids.len() && ids[q] == x;
                        if q < ids.len() - 1 { assert(p[q] == x); }
                    }
                }
            }
            assert(!active_among(m, p).contains(last));
            let s = c.entity.position;
            let occ1 = st.0.remove(crate::geometry::position_key(s));
            lemma_pick_from(map, m.players, occ1, s, last, m.tick, 0);
        } else {
            assert(active_among(m, ids) =~= active_among(m, p)) by {
                assert forall|x: u32| ids.to_set().contains(x) <==> (p.to_set().contains(x) || x == last) by {
                    if ids.contains(x) {
                        let q = choose|q: int| 0 <= q < ids.len() && ids[q] == x;
                        if q < ids.len() - 1 { assert(p[q] == x); }
                    }
                }
            }
        }
    }
}

/// A movement plan names each creature at most once, in ascending identifier order, and only
/// active ones, each with a step onto a walkable tile that no player holds; every active creature
/// is either planned or counted as skipped.
pub proof fn law_plan_steps_are_safe(m: WorldModel, map: WorldMapView)
    requires
        m.static_creatures.dom().finite(),
    ensures
        ({
            let (_, ds, skipped) = planned(m, map);
            &&& forall|j: int| 0 <= j < ds.len() ==> planned_step_ok(m, map, #[trigger] ds[j])
            &&& forall|j: int, k: int| 0 <= j < k < ds.len() ==> #[trigger] ds[j].creature_id < #[trigger] ds[k].creature_id
            &&& ds.len() + skipped == active_ids(m.static_creatures).len()
        }),
{
    let cs = m.static_creatures;
    let ids = sorted_u32(cs.dom());
    crate::keys::lemma_sorted_u32_list(cs.dom());
    assert forall|i: int| 0 <= i < ids.len() implies cs.contains_key(#[trigger] ids[i]) by {
        assert(ids.to_set().contains(ids[i]));
    }
    lemma_plan_run(m, map, m.static_occupied, ids);
    assert(active_among(m, ids) =~= active_ids(cs));
}


/// Registration succeeds exactly when the name is not blank, the vitals are valid, the identifier
/// is free and neither a player nor an active static creature stands on the position; a
/// registered player reads back as given, with the given vitals and progression, no equipment,
/// containers or conditions, the living state, and one more revision.
pub proof fn law_registration(m: WorldModel, player: Player, vitals: PlayerVitals, progression: PlayerProgression)
    requires
        occupancy_in_sync(m),
    ensures
        registration_error(m, player, vitals) is None <==> (!spec_is_blank(player.name@) && vitals_valid(vitals)
            && !m.players.contains_key(player.id) && !position_taken(m.players, player.position)
            && !exists|id: u32| #[trigger] m.static_creatures.contains_key(id) && m.static_creatures[id].active
                && m.static_creatures[id].entity.position == player.position),
        registration_error(m, player, vitals) is None ==> ({
            let w = with_new_player(m, player, vitals, progression);
            let id = player.id;
            &&& w.players[id] == player
            &&& w.vitals[id] == vitals
            &&& w.progressions[id] == progression
            &&& w.equipments[id] == Map::<u8, crate::items::ItemView>::empty()
            &&& w.containers[id].is_empty()
            &&& w.conditions[id] == Map::<u8, ConditionView>::empty()
            &&& w.respawn_states[id] == living_state()
            &&& w.revision == crate::world::bumped(m.revision)
        }),
{
    let k = crate::geometry::position_key(player.position);
    if exists|id: u32| #[trigger] m.static_creatures.contains_key(id) && m.static_creatures[id].active
        && m.static_creatures[id].entity.position == player.position {
        let id = choose|id: u32| #[trigger] m.static_creatures.contains_key(id) && m.static_creatures[id].active
            && m.static_creatures[id].entity.position == player.position;
        assert(occupancy(m.static_creatures).contains(k));
    }
    if m.static_occupied.contains(k) {
        assert(occupancy(m.static_creatures).contains(k));
        let id = choose|id: u32| m.static_creatures.contains_key(id) && m.static_creatures[id].active
            && #[trigger] crate::geometry::position_key(m.static_creatures[id].entity.position) == k;
        crate::geometry::lemma_position_key_roundtrip(player.position);
        crate::geometry::lemma_position_key_roundtrip(m.static_creatures[id].entity.position);
    }
    assert(with_new_player(m, player, vitals, progression).containers[player.id] =~= Map::empty());
}


/// The positions of the active records among the first `n`.
pub open spec fn active_record_keys(rs: Seq<StaticCreatureRuntimeSnapshot>, n: int) -> Set<(u16, u16, u8)> {
    Set::new(|k: (u16, u16, u8)| exists|i: int| 0 <= i < n && rs[i].active
        && #[trigger] crate::geometry::position_key(rs[i].position) == k)
}

/// Records whose active positions are distinct and free of players are placed without refusal.
proof fn lemma_placement_free(players: Map<u64, Player>, rs: Seq<StaticCreatureRuntimeSnapshot>, n: int)
    requires
        0 <= n <= rs.len(),
        forall|i: int, j: int| 0 <= i < j < rs.len() && rs[i].active && rs[j].active
            ==> #[trigger] rs[i].position != #[trigger] rs[j].position,
        forall|i: int| 0 <= i < rs.len() && rs[i].active ==> !position_taken(players, #[trigger] rs[i].position),
    ensures
        placement_error(players, Set::empty(), rs.take(n)) == (None::<crate::error::CoreError>, active_record_keys(rs, n)),
    decreases n,
{
    if n == 0 {
        assert(active_record_keys(rs, 0) =~= Set::empty());
        assert(rs.take(0) =~= Seq::<StaticCreatureRuntimeSnapshot>::empty());
    } else {
        lemma_placement_free(players, rs, n - 1);
        let t = rs.take(n);
        assert(t.drop_last() =~= rs.take(n - 1));
        let r = rs[n - 1];
        assert(t.last() == r);
        if r.active {
            assert(!active_record_keys(rs, n - 1).contains(crate::geometry::position_key(r.position))) by {
                if active_record_keys(rs, n - 1).contains(crate::geometry::position_key(r.position)) {
                    let i = choose|i: int| 0 <= i < n - 1 && rs[i].active
                        && #[trigger] crate::geometry::position_key(rs[i].position) == crate::geometry::position_key(r.position);
                    crate::geometry::lemma_position_key_roundtrip(rs[i].position);
                    crate::geometry::lemma_position_key_roundtrip(r.position);
                    assert(rs[i].position != rs[n - 1].position);
                }
            }
            assert(active_record_keys(rs, n) =~= active_record_keys(rs, n - 1).insert(crate::geometry::position_key(r.position))) by {
                assert forall|k: (u16, u16, u8)| active_record_keys(rs, n).contains(k) implies
                    active_record_keys(rs, n - 1).insert(crate::geometry::position_key(r.position)).contains(k) by {
                    let i = choose|i: int| 0 <= i < n && rs[i].active && #[trigger] crate::geometry::position_key(rs[i].position) == k;
                    if i < n - 1 {
                        assert(active_record_keys(rs, n - 1).contains(k));
                    }
                }
                assert forall|k: (u16, u16, u8)| active_record_keys(rs, n - 1).contains(k) implies
                    active_record_keys(rs, n).contains(k) by {
                    let i = choose|i: int| 0 <= i < n - 1 && rs[i].active && #[trigger] crate::geometry::position_key(rs[i].position) == k;
                }
            }
        } else {
            assert(active_record_keys(rs, n) =~= active_record_keys(rs, n - 1)) by {
                assert forall|k: (u16, u16, u8)| active_record_keys(rs, n).contains(k) implies
                    active_record_keys(rs, n - 1).contains(k) by {
                    let i = choose|i: int| 0 <= i < n && rs[i].active && #[trigger] crate::geometry::position_key(rs[i].position) == k;
                }
                assert forall|k: (u16, u16, u8)| active_record_keys(rs, n - 1).contains(k) implies
                    active_record_keys(rs, n).contains(k) by {
                    let i = choose|i: int| 0 <= i < n - 1 && rs[i].active && #[trigger] crate::geometry::position_key(rs[i].position) == k;
                }
            }
        }
    }
}

/// The position key of a creature.
pub open spec fn creature_key(m: WorldModel, id: u32) -> (u16, u16, u8) {
    crate::geometry::position_key(m.static_creatures[id].entity.position)
}

/// The position key a decision steps onto.
pub open spec fn destination_key(m: WorldModel, d: StaticCreatureMoveDecision) -> (u16, u16, u8) {
    crate::geometry::position_key(spec_step(m.static_creatures[d.creature_id].entity.position, d.direction)->0)
}

/// Some decision names creature `id`.
pub open spec fn decided(ds: Seq<StaticCreatureMoveDecision>, id: u32) -> bool {
    exists|j: int| 0 <= j < ds.len() && #[trigger] ds[j].creature_id == id
}

/// What a planning pass over the first `n` identifiers keeps: the taken positions hold every
/// destination, every skipped creature's position and every position of an active creature
/// still to come; destinations are distinct from each other, from skipped creatures' positions
/// and from the positions of active creatures still to come.
pub open spec fn plan_separated(m: WorldModel, all: Seq<u32>, n: int, st: (Set<(u16, u16, u8)>, Seq<StaticCreatureMoveDecision>, int)) -> bool {
    let cs = m.static_creatures;
    let (occ, ds, _) = st;
    let done = all.take(n);
    &&& forall|id: u32| #[trigger] cs.contains_key(id) && cs[id].active && !done.contains(id) ==> occ.contains(creature_key(m, id))
    &&& forall|j: int| 0 <= j < ds.len() ==> occ.contains(#[trigger] destination_key(m, ds[j]))
    &&& forall|id: u32| #[trigger] cs.contains_key(id) && cs[id].active && done.contains(id) && !decided(ds, id)
        ==> occ.contains(creature_key(m, id))
    &&& forall|j: int, k: int| 0 <= j < k < ds.len() ==> #[trigger] destination_key(m, ds[j]) != #[trigger] destination_key(m, ds[k])
    &&& forall|j: int, id: u32| 0 <= j < ds.len() && #[trigger] cs.contains_key(id) && cs[id].active && !decided(ds, id)
        ==> #[trigger] destination_key(m, ds[j]) != creature_key(m, id)
}

proof fn lemma_plan_separated(m: WorldModel, map: WorldMapView, all: Seq<u32>, n: int)
    requires
        0 <= n <= all.len(),
        strictly_increasing_u32(all),
        forall|i: int| 0 <= i < all.len() ==> m.static_creatures.contains_key(#[trigger] all[i]),
        occupancy_in_sync(m),
        forall|a: u32, b: u32| #[trigger] m.static_creatures.contains_key(a) && #[trigger] m.static_creatures.contains_key(b)
            && a != b && m.static_creatures[a].active && m.static_creatures[b].active ==> creature_key(m, a) != creature_key(m, b),
    ensures
        plan_separated(m, all, n, plan_run((m.static_occupied, Seq::empty(), 0), m, map, all.take(n))),
        forall|j: int| 0 <= j < plan_run((m.static_occupied, Seq::empty(), 0), m, map, all.take(n)).1.len() ==>
            all.take(n).contains(#[trigger] plan_run((m.static_occupied, Seq::empty(), 0), m, map, all.take(n)).1[j].creature_id),
    decreases n,
{
    let cs = m.static_creatures;
    let st0 = (m.static_occupied, Seq::<StaticCreatureMoveDecision>::empty(), 0int);
    if n == 0 {
        assert(all.take(0) =~= Seq::<u32>::empty());
        assert forall|id: u32| #[trigger] cs.contains_key(id) && cs[id].active implies m.static_occupied.contains(creature_key(m, id)) by {
            assert(occupancy(cs).contains(creature_key(m, id)));
        }
    } else {
        lemma_plan_separated(m, map, all, n - 1);
        let prev = all.take(n - 1);
        let done = all.take(n);
        assert(done.drop_last() =~= prev);
        let id = all[n - 1];
        assert(done.last() == id);
        let st = plan_run(st0, m, map, prev);
        let r = plan_run(st0, m, map, done);
        assert(r == crate::world::statics::plan_one(st, m, map, id));
        let (occ, ds, sk) = st;
        assert forall|x: u32| done.contains(x) <==> (prev.contains(x) || x == id) by {
            if done.contains(x) {
                let q = choose|q: int| 0 <= q < done.len() && done[q] == x;
                if q < n - 1 { assert(prev[q] == x); }
            }
            if prev.contains(x) {
                let q = choose|q: int| 0 <= q < prev.len() && prev[q] == x;
                assert(done[q] == x);
            }
            if x == id { assert(done[n - 1] == x); }
        }
        assert(!prev.contains(id)) by {
            if prev.contains(id) {
                let q = choose|q: int| 0 <= q < prev.len() && prev[q] == id;
                assert(all[q] < all[n - 1]);
            }
        }
        let c = cs[id];
        if c.active {
            let s = creature_key(m, id);
            let occ1 = occ.remove(s);
            lemma_pick_from(map, m.players, occ1, c.entity.position, id, m.tick, 0);
            assert(!decided(ds, id)) by {
                if decided(ds, id) {
                    let j = choose|j: int| 0 <= j < ds.len() && #[trigger] ds[j].creature_id == id;
                    assert(prev.contains(ds[j].creature_id));
                }
            }
            // Every earlier destination and every earlier skipped position stays taken.
            assert forall|j: int| 0 <= j < ds.len() implies occ1.contains(#[trigger] destination_key(m, ds[j])) by {
                assert(destination_key(m, ds[j]) != creature_key(m, id));
            }
            assert forall|x: u32| #[trigger] cs.contains_key(x) && cs[x].active && x != id && (prev.contains(x) ==> !decided(ds, x))
                implies occ1.contains(creature_key(m, x)) by {
                assert(cs.contains_key(id));
            }
            match pick_from(map, m.players, occ1, c.entity.position, id, m.tick, 0) {
                Some((d, p)) => {
                    let dec = StaticCreatureMoveDecision { creature_id: id, direction: d };
                    let ds2 = ds.push(dec);
                    let q = crate::geometry::position_key(p);
                    assert(destination_key(m, dec) == q);
                    assert(r == (occ1.insert(q), ds2, sk));
                    assert forall|x: u32| decided(ds2, x) <==> (decided(ds, x) || x == id) by {
                        if decided(ds2, x) {
                            let j = choose|j: int| 0 <= j < ds2.len() && #[trigger] ds2[j].creature_id == x;
                            if j < ds.len() { assert(ds[j] == ds2[j]); }
                        }
                        if decided(ds, x) {
                            let j = choose|j: int| 0 <= j < ds.len() && #[trigger] ds[j].creature_id == x;
                            assert(ds2[j] == ds[j]);
                        }
                        if x == id { assert(ds2[ds.len() as int].creature_id == x); }
                    }
                    assert forall|j: int| 0 <= j < ds2.len() implies all.take(n).contains(#[trigger] ds2[j].creature_id) by {
                        if j < ds.len() { assert(ds2[j] == ds[j]); }
                    }
                    assert forall|j: int, k: int| 0 <= j < k < ds2.len() implies #[trigger] destination_key(m, ds2[j])
                        != #[trigger] destination_key(m, ds2[k]) by {
                        assert(ds2[j] == ds[j]);
                        if k < ds.len() { assert(ds2[k] == ds[k]); }
                    }
                    assert forall|j: int, x: u32| 0 <= j < ds2.len() && #[trigger] cs.contains_key(x) && cs[x].active
                        && !decided(ds2, x) implies #[trigger] destination_key(m, ds2[j]) != creature_key(m, x) by {
                        if j < ds.len() {
                            assert(ds2[j] == ds[j]);
                        } else {
                            assert(occ1.contains(creature_key(m, x)));
                        }
                    }
                    assert forall|j: int| 0 <= j < ds2.len() implies occ1.insert(q).contains(#[trigger] destination_key(m, ds2[j])) by {
                        if j < ds.len() { assert(ds2[j] == ds[j]); }
                    }
                },
                None => {
                    assert(r == (occ1.insert(s), ds, sk + 1));
                },
            }
        } else {
            assert(r == st);
        }
    }
}

/// Under occupancy in sync and active creatures on distinct positions, a movement plan's
/// destinations are distinct from each other and from the position of every active creature
/// that is not moved (a skipped one).
pub proof fn law_plan_destinations_are_distinct(m: WorldModel, map: WorldMapView)
    requires
        m.static_creatures.dom().finite(),
        occupancy_in_sync(m),
        forall|a: u32, b: u32| #[trigger] m.static_creatures.contains_key(a) && #[trigger] m.static_creatures.contains_key(b)
            && a != b && m.static_creatures[a].active && m.static_creatures[b].active
            ==> m.static_creatures[a].entity.position != m.static_creatures[b].entity.position,
    ensures
        ({
            let ds = planned(m, map).1;
            &&& forall|j: int, k: int| 0 <= j < k < ds.len() ==> #[trigger] destination_key(m, ds[j])
                != #[trigger] destination_key(m, ds[k])
            &&& forall|j: int, id: u32| 0 <= j < ds.len() && #[trigger] m.static_creatures.contains_key(id)
                && m.static_creatures[id].active && !decided(ds, id) ==> #[trigger] destination_key(m, ds[j]) != creature_key(m, id)
        }),
{
    let cs = m.static_creatures;
    let all = sorted_u32(cs.dom());
    crate::keys::lemma_sorted_u32_list(cs.dom());
    assert forall|i: int| 0 <= i < all.len() implies cs.contains_key(#[trigger] all[i]) by {
        assert(all.to_set().contains(all[i]));
    }
    assert forall|a: u32, b: u32| #[trigger] cs.contains_key(a) && #[trigger] cs.contains_key(b) && a != b && cs[a].active
        && cs[b].active implies creature_key(m, a) != creature_key(m, b) by {
        crate::geometry::lemma_position_key_roundtrip(cs[a].entity.position);
        crate::geometry::lemma_position_key_roundtrip(cs[b].entity.position);
    }
    lemma_plan_separated(m, map, all, all.len() as int);
    assert(all.take(all.len() as int) =~= all);
}

/// Records with distinct identifiers, health at most 100, each fitting its installed creature,
/// are not refused.
proof fn lemma_records_accepted(cs: Creatures, rs: Seq<StaticCreatureRuntimeSnapshot>)
    requires
        distinct_ids(rs),
        forall|i: int| 0 <= i < rs.len() ==> (#[trigger] rs[i]).health_percent <= 100,
        records_fit(cs, rs),
    ensures
        records_error(cs, rs) is None,
    decreases rs.len(),
{
    if rs.len() > 0 {
        let p = rs.drop_last();
        assert forall|i: int, j: int| 0 <= i < j < p.len() implies #[trigger] p[i].id != #[trigger] p[j].id by {
            assert(rs[i] == p[i] && rs[j] == p[j]);
        }
        assert forall|i: int| 0 <= i < p.len() implies (#[trigger] p[i]).health_percent <= 100 by {
            assert(rs[i] == p[i]);
        }
        assert forall|i: int| 0 <= i < p.len() && cs.contains_key(#[trigger] p[i].id)
            implies record_error(cs[p[i].id], p[i]) is None by {
            assert(rs[i] == p[i]);
        }
        lemma_records_accepted(cs, p);
        let last = rs.last();
        assert(rs[rs.len() - 1] == last);
        if record_ids(p).contains(last.id) {
            let i = choose|i: int| 0 <= i < p.len() && #[trigger] p[i].id == last.id;
            assert(rs[i].id == rs[rs.len() - 1].id);
        }
    }
}

/// Snapshotting the creatures of a world whose creature state is sound, and restoring the records
/// onto a world with the same installation (the same identifiers, respawn intervals and melee
/// cooldowns) whose tick leaves room for every delay, is accepted whenever the active creatures
/// stand on distinct positions that no player of the second world holds; it restores every
/// record, ignores none, and snapshots back to the same records.
pub proof fn law_snapshot_restore_round_trip(m1: WorldModel, m2: WorldModel)
    requires
        creatures_sound(m1),
        m1.static_creatures.dom() == m2.static_creatures.dom(),
        m1.static_creatures.dom().finite(),
        forall|id: u32| #[trigger] m1.static_creatures.contains_key(id)
            ==> m1.static_creatures[id].respawn_interval_seconds == m2.static_creatures[id].respawn_interval_seconds
            && m1.static_creatures[id].melee_cooldown_ticks == m2.static_creatures[id].melee_cooldown_ticks,
        m2.tick <= u64::MAX - u32::MAX,
        forall|a: u32, b: u32| #[trigger] m1.static_creatures.contains_key(a) && #[trigger] m1.static_creatures.contains_key(b)
            && a != b && m1.static_creatures[a].active && m1.static_creatures[b].active
            ==> m1.static_creatures[a].entity.position != m1.static_creatures[b].entity.position,
        forall|id: u32| #[trigger] m1.static_creatures.contains_key(id) && m1.static_creatures[id].active
            ==> !position_taken(m2.players, m1.static_creatures[id].entity.position),
    ensures
        restore_result(m2, runtime_snapshots(m1)) is Ok,
        restore_result(m2, runtime_snapshots(m1))->Ok_0.0 == (StaticCreatureRuntimeRestoreSummary {
            restored: runtime_snapshots(m1).len() as usize, ignored_unknown: 0 }),
        runtime_snapshots(restore_result(m2, runtime_snapshots(m1))->Ok_0.1) == runtime_snapshots(m1),
{
    let snaps = runtime_snapshots(m1);
    let ids = sorted_u32(m1.static_creatures.dom());
    crate::keys::lemma_sorted_u32_list(m1.static_creatures.dom());
    let cs = m2.static_creatures;
    let t = m2.tick;
    assert forall|i: int| 0 <= i < snaps.len() implies cs.contains_key(#[trigger] snaps[i].id) by {
        assert(ids.to_set().contains(ids[i]));
    }
    assert forall|i: int, j: int| 0 <= i < j < snaps.len() implies #[trigger] snaps[i].id != #[trigger] snaps[j].id by {
        assert(ids[i] < ids[j]);
    }
    assert forall|i: int| 0 <= i < snaps.len() implies (#[trigger] snaps[i]).health_percent <= 100 by {
        assert(ids.to_set().contains(ids[i]));
    }
    assert forall|i: int| 0 <= i < snaps.len() && cs.contains_key(#[trigger] snaps[i].id)
        implies record_error(cs[snaps[i].id], snaps[i]) is None by {
        assert(ids.to_set().contains(ids[i]));
    }
    lemma_records_accepted(cs, snaps);
    lemma_all_known(cs, snaps);
    assert(unrestored_occupancy(cs, snaps) =~= Set::empty()) by {
        assert forall|k: (u16, u16, u8)| !unrestored_occupancy(cs, snaps).contains(k) by {
            if unrestored_occupancy(cs, snaps).contains(k) {
                let id = choose|id: u32| cs.contains_key(id) && cs[id].active && !record_ids(snaps).contains(id)
                    && #[trigger] crate::geometry::position_key(cs[id].entity.position) == k;
                assert(ids.to_set().contains(id));
                let i = choose|i: int| 0 <= i < ids.len() && ids[i] == id;
                assert(snaps[i].id == id);
            }
        }
    }
    assert forall|i: int, j: int| 0 <= i < j < snaps.len() && snaps[i].active && snaps[j].active
        implies #[trigger] snaps[i].position != #[trigger] snaps[j].position by {
        assert(ids.to_set().contains(ids[i]) && ids.to_set().contains(ids[j]));
        assert(ids[i] < ids[j]);
    }
    assert forall|i: int| 0 <= i < snaps.len() && snaps[i].active implies !position_taken(m2.players, #[trigger] snaps[i].position) by {
        assert(ids.to_set().contains(ids[i]));
    }
    lemma_placement_free(m2.players, snaps, snaps.len() as int);
    assert(snaps.take(snaps.len() as int) =~= snaps);
    lemma_records_valid(cs, snaps);
    lemma_apply_records(cs, snaps, t);
    let (cs2, changed) = apply_records(cs, snaps, t);
    let w = restore_result(m2, snaps)->Ok_0.1;
    assert(w.static_creatures == cs2 && w.tick == t);
    assert(cs2.dom() == m1.static_creatures.dom());
    let back = runtime_snapshots(w);
    assert(back.len() == snaps.len());
    assert forall|i: int| 0 <= i < snaps.len() implies back[i] == snaps[i] by {
        let id = ids[i];
        let r = snaps[i];
        assert(r == snapshot_of(id, m1.static_creatures[id], m1.tick));
        assert(cs.contains_key(r.id));
        assert(cs2[id] == restored(cs[id], r, t));
    }
    assert(back =~= snaps);
}

/// Records that are not refused hold health of at most 100.
proof fn lemma_records_health(cs: Creatures, rs: Seq<StaticCreatureRuntimeSnapshot>)
    requires
        records_error(cs, rs) is None,
    ensures
        forall|i: int| 0 <= i < rs.len() ==> (#[trigger] rs[i]).health_percent <= 100,
    decreases rs.len(),
{
    if rs.len() > 0 {
        let p = rs.drop_last();
        lemma_records_health(cs, p);
        assert forall|i: int| 0 <= i < rs.len() implies (#[trigger] rs[i]).health_percent <= 100 by {
            if i < rs.len() - 1 {
                assert(rs[i] == p[i]);
            }
        }
    }
}

/// An accepted restore keeps the creature state sound.
pub proof fn law_restore_keeps_soundness(m: WorldModel, rs: Seq<StaticCreatureRuntimeSnapshot>)
    requires
        creatures_sound(m),
        restore_result(m, rs) is Ok,
    ensures
        creatures_sound(restore_result(m, rs)->Ok_0.1),
{
    let cs = m.static_creatures;
    let known = known_records(cs, rs);
    let t = m.tick;
    lemma_records_valid(cs, rs);
    lemma_records_health(cs, rs);
    lemma_known_records(cs, rs);
    lemma_apply_records(cs, known, t);
    let cs2 = apply_records(cs, known, t).0;
    let w = restore_result(m, rs)->Ok_0.1;
    assert(w.static_creatures == cs2 && w.tick == t);
    assert forall|id: u32| #[trigger] cs2.contains_key(id) implies creature_sound(cs2[id], t) by {
        assert(creature_sound(cs[id], t));
        if record_ids(known).contains(id) {
            let i = choose|i: int| 0 <= i < known.len() && #[trigger] known[i].id == id;
            let j = choose|j: int| 0 <= j < rs.len() && rs[j] == known[i];
            assert(rs[j].health_percent <= 100);
            assert(record_error(cs[rs[j].id], rs[j]) is None);
            assert(cs2[id] == restored(cs[id], known[i], t));
        }
    }
}

/// The indices of the table entries that a roll from `state` selects, in table order.
pub open spec fn loot_picks(state: u64, entries: Seq<StaticCreatureLootEntry>) -> Seq<int>
    decreases entries.len(),
{
    if entries.len() == 0 {
        Seq::empty()
    } else {
        let prev = entries.drop_last();
        let s2 = lcg(loot_run(state, prev).0);
        let e = entries.last();
        let chance = if e.chance < crate::creatures::LOOT_CHANCE_SCALE { e.chance } else {
            crate::creatures::LOOT_CHANCE_SCALE };
        if ((s2 >> 33u64) % (crate::creatures::LOOT_CHANCE_SCALE as u64)) < chance as u64 {
            loot_picks(state, prev).push(entries.len() - 1)
        } else {
            loot_picks(state, prev)
        }
    }
}

/// A roll drops one stack for each selected entry, in table order: the entry's item, with a
/// count inside the entry's inclusive bounds. An entry whose chance is the full scale or more is
/// always selected, and one with no chance never is.
pub proof fn law_loot_selection(state: u64, entries: Seq<StaticCreatureLootEntry>)
    ensures
        ({
            let items = loot_run(state, entries).1;
            let picks = loot_picks(state, entries);
            &&& picks.len() == items.len()
            &&& forall|k: int, l: int| 0 <= k < l < picks.len() ==> picks[k] < picks[l]
            &&& forall|k: int| 0 <= k < picks.len() ==> 0 <= #[trigger] picks[k] < entries.len()
                && items[k].0 == entries[picks[k]].item_id
                && (entries[picks[k]].min_count <= entries[picks[k]].max_count
                    ==> entries[picks[k]].min_count <= items[k].1 <= entries[picks[k]].max_count)
            &&& forall|j: int| 0 <= j < entries.len() && (#[trigger] entries[j]).chance >= crate::creatures::LOOT_CHANCE_SCALE
                ==> picks.contains(j)
            &&& forall|j: int| 0 <= j < entries.len() && (#[trigger] entries[j]).chance == 0 ==> !picks.contains(j)
        }),
    decreases entries.len(),
{
    if entries.len() > 0 {
        let prev = entries.drop_last();
        law_loot_selection(state, prev);
        let (s1, items0) = loot_run(state, prev);
        let picks0 = loot_picks(state, prev);
        let e = entries.last();
        let n = entries.len() - 1;
        assert(entries[n] == e);
        assert forall|j: int| 0 <= j < n implies #[trigger] entries[j] == prev[j] by {}
        let items = loot_run(state, entries).1;
        let picks = loot_picks(state, entries);
        let s2 = lcg(s1);
        let chance = if e.chance < crate::creatures::LOOT_CHANCE_SCALE { e.chance } else { crate::creatures::LOOT_CHANCE_SCALE };
        let roll = (s2 >> 33u64) % (crate::creatures::LOOT_CHANCE_SCALE as u64);
        assert(roll < crate::creatures::LOOT_CHANCE_SCALE);
        if roll < chance as u64 {
            let s3 = lcg(s2);
            let x = (s3 >> 33u64) % count_span(e);
            assert(x < count_span(e));
            assert(items == items0.push((e.item_id, (e.min_count + x) as u16)));
            assert(picks == picks0.push(n));
            assert forall|j: int| 0 <= j < entries.len() && (#[trigger] entries[j]).chance >= crate::creatures::LOOT_CHANCE_SCALE
                implies picks.contains(j) by {
                if j < n {
                    assert(prev[j].chance >= crate::creatures::LOOT_CHANCE_SCALE);
                    assert(picks0.contains(j));
                    let k = choose|k: int| 0 <= k < picks0.len() && picks0[k] == j;
                    assert(picks[k] == j);
                } else {
                    assert(picks[picks0.len() as int] == j);
                }
            }
            assert forall|j: int| 0 <= j < entries.len() && (#[trigger] entries[j]).chance == 0 implies !picks.contains(j) by {
                if picks.contains(j) {
                    let k = choose|k: int| 0 <= k < picks.len() && picks[k] == j;
                    if k < picks0.len() {
                        assert(picks0[k] == j);
                        assert(prev[j].chance == 0);
                        assert(picks0.contains(j));
                    }
                }
            }
            assert forall|k: int, l: int| 0 <= k < l < picks.len() implies picks[k] < picks[l] by {
                assert(picks[k] == picks0[k]);
                if l < picks0.len() { assert(picks[l] == picks0[l]); }
            }
            assert forall|k: int| 0 <= k < picks.len() implies 0 <= #[trigger] picks[k] < entries.len()
                && items[k].0 == entries[picks[k]].item_id
                && (entries[picks[k]].min_count <= entries[picks[k]].max_count
                    ==> entries[picks[k]].min_count <= items[k].1 <= entries[picks[k]].max_count) by {
                if k < picks0.len() {
                    assert(picks[k] == picks0[k]);
                    assert(items[k] == items0[k]);
                    assert(entries[picks0[k]] == prev[picks0[k]]);
                }
            }
        } else {
            assert(items == items0);
            assert(picks == picks0);
            assert forall|j: int| 0 <= j < entries.len() && (#[trigger] entries[j]).chance >= crate::creatures::LOOT_CHANCE_SCALE
                implies picks.contains(j) by {
                if j < n {
                    assert(prev[j].chance >= crate::creatures::LOOT_CHANCE_SCALE);
                }
            }
            assert forall|j: int| 0 <= j < entries.len() && (#[trigger] entries[j]).chance == 0 implies !picks.contains(j) by {
                if j < n {
                    assert(prev[j].chance == 0);
                } else if picks.contains(j) {
                    let k = choose|k: int| 0 <= k < picks.len() && picks[k] == j;
                }
            }
            assert forall|k: int| 0 <= k < picks.len() implies 0 <= #[trigger] picks[k] < entries.len()
                && items[k].0 == entries[picks[k]].item_id
                && (entries[picks[k]].min_count <= entries[picks[k]].max_count
                    ==> entries[picks[k]].min_count <= items[k].1 <= entries[picks[k]].max_count) by {
                assert(entries[picks0[k]] == prev[picks0[k]]);
            }
        }
    }
}

} // verus!
