//! Session-local parties: invitations, membership, leadership, shared-experience eligibility
//! and the display relation between two players.

use vstd::prelude::*;
use std::collections::{BTreeMap, BTreeSet};
use crate::error::CoreError;
use crate::geometry::diff;
use crate::keys::{map_keys, set_keys, strictly_increasing};
use crate::world::{WorldState, WorldModel, bumped};

verus! {

broadcast use {vstd::std_specs::btree::group_btree_axioms, vstd::laws_cmp::group_laws_cmp};

/// The relation that one observer displays for another player.
#[derive(Debug, Clone, Copy, PartialEq, Eq, Structural)]
pub enum PartyDisplayRelation {
    Unrelated,
    InvitationFromLeader,
    InvitationToLeader,
    Member,
    Leader,
}

/// Bounded inputs of the shared-experience eligibility model.
#[derive(Debug, Clone, Copy, PartialEq, Eq, Structural)]
pub struct PartySharedExperienceRules {
    pub maximum_range: u16,
    pub maximum_floor_delta: u8,
    pub activity_window_ticks: u64,
}

impl Default for PartySharedExperienceRules {
    fn default() -> (r: PartySharedExperienceRules)
        ensures
            r == (PartySharedExperienceRules { maximum_range: 30, maximum_floor_delta: 1, activity_window_ticks: 60 }),
    {
        PartySharedExperienceRules { maximum_range: 30, maximum_floor_delta: 1, activity_window_ticks: 60 }
    }
}

/// Why a requested shared experience is or is not active.
#[derive(Debug, Clone, Copy, PartialEq, Eq, Structural)]
pub enum PartySharedExperienceEligibility {
    NotRequested,
    Eligible,
    EmptyParty,
    LevelSpreadTooLarge,
    TooFarAway,
    MemberInactive,
}

#[derive(Debug, Clone, Copy, PartialEq, Eq, Structural)]
pub struct PartySharedExperienceState {
    pub requested: bool,
    pub eligibility: PartySharedExperienceEligibility,
}

/// The members of `leader`'s party (the leader excluded).
pub open spec fn members_of(memberships: Map<u64, u64>, leader: u64) -> Set<u64> {
    memberships.dom().filter(|k: u64| memberships[k] == leader)
}

/// Memberships with every member of `leader` dropped.
pub open spec fn memberships_without(memberships: Map<u64, u64>, leader: u64) -> Map<u64, u64> {
    memberships.restrict(memberships.dom().filter(|k: u64| memberships[k] != leader))
}

/// Memberships with every member of `from` moved to `to`.
pub open spec fn memberships_moved(memberships: Map<u64, u64>, from: u64, to: u64) -> Map<u64, u64> {
    Map::new(|k: u64| memberships.contains_key(k), |k: u64| if memberships[k] == from { to } else { memberships[k] })
}

/// Some pending invitation names `leader`.
pub open spec fn has_invitations(invitations: Map<u64, Set<u64>>, leader: u64) -> bool {
    exists|k: u64| invitations.contains_key(k) && #[trigger] invitations[k].contains(leader)
}

/// Invitations with `leader` dropped; invitation sets that become empty are dropped too.
pub open spec fn invitations_without(invitations: Map<u64, Set<u64>>, leader: u64) -> Map<u64, Set<u64>> {
    Map::new(
        |k: u64| invitations.contains_key(k) && invitations[k].remove(leader) != Set::<u64>::empty(),
        |k: u64| invitations[k].remove(leader),
    )
}

/// Invitations from `from` re-addressed to `to`.
pub open spec fn invitations_moved(invitations: Map<u64, Set<u64>>, from: u64, to: u64) -> Map<u64, Set<u64>> {
    Map::new(
        |k: u64| invitations.contains_key(k),
        |k: u64| if invitations[k].contains(from) { invitations[k].remove(from).insert(to) } else { invitations[k] },
    )
}

/// The world after `leader`'s party is dissolved.
pub open spec fn disbanded(m: WorldModel, leader: u64) -> WorldModel {
    WorldModel {
        party_leaders: m.party_leaders.remove(leader),
        shared_requested: m.shared_requested.remove(leader),
        shared_activity: m.shared_activity.remove_keys(members_of(m.party_memberships, leader).insert(leader)),
        party_memberships: memberships_without(m.party_memberships, leader),
        party_invitations: invitations_without(m.party_invitations, leader),
        ..m
    }
}

/// The world after `leader`'s party is dissolved when it has no member and no invitation left.
pub open spec fn disbanded_if_empty(m: WorldModel, leader: u64) -> WorldModel {
    if m.party_leaders.contains(leader) && members_of(m.party_memberships, leader) == Set::<u64>::empty()
        && !has_invitations(m.party_invitations, leader) {
        disbanded(m, leader)
    } else {
        m
    }
}

/// The world after leadership passes from `leader` to `successor`, a member of the party.
pub open spec fn led_by(m: WorldModel, leader: u64, successor: u64) -> WorldModel {
    WorldModel {
        party_leaders: m.party_leaders.remove(leader).insert(successor),
        shared_requested: if m.shared_requested.contains(leader) {
            m.shared_requested.remove(leader).insert(successor)
        } else {
            m.shared_requested
        },
        party_memberships: memberships_moved(m.party_memberships.remove(successor), leader, successor),
        party_invitations: invitations_moved(m.party_invitations, leader, successor),
        ..m
    }
}

/// The world after each party of `leaders` other than `keep`, in order, is dissolved when empty.
pub open spec fn disband_each_empty(m: WorldModel, leaders: Seq<u64>, keep: Option<u64>) -> WorldModel
    decreases leaders.len(),
{
    if leaders.len() == 0 {
        m
    } else {
        let before = disband_each_empty(m, leaders.drop_last(), keep);
        if keep == Some(leaders.last()) { before } else { disbanded_if_empty(before, leaders.last()) }
    }
}

/// The party state after a player leaves the world: its activity mark goes; a leader hands the
/// party to its lowest member or dissolves it; a member leaves and an emptied party dissolves;
/// its pending invitations go, and each inviting party left empty dissolves.
pub open spec fn party_cleared(m: WorldModel, p: u64) -> WorldModel {
    let m1 = party_dropped(WorldModel { shared_activity: m.shared_activity.remove(p), ..m }, p);
    disband_each_empty(
        WorldModel { party_invitations: m1.party_invitations.remove(p), ..m1 },
        crate::keys::sorted_ids(invitations_of(m1, p)),
        None,
    )
}

/// The party state after a player stops leading or belonging to a party.
pub open spec fn party_dropped(m: WorldModel, p: u64) -> WorldModel {
    if m.party_leaders.contains(p) {
        let ms = members_of(m.party_memberships, p);
        if ms == Set::<u64>::empty() {
            disbanded(m, p)
        } else {
            led_by(m, p, choose|s: u64| is_least(ms, s))
        }
    } else if m.party_memberships.contains_key(p) {
        disbanded_if_empty(WorldModel { party_memberships: m.party_memberships.remove(p), ..m }, m.party_memberships[p])
    } else {
        m
    }
}

/// The least element of a finite non-empty identifier set.
pub open spec fn is_least(s: Set<u64>, x: u64) -> bool {
    s.contains(x) && forall|y: u64| #[trigger] s.contains(y) ==> x <= y
}

/// The party invariants: leaders and members are disjoint, and every member's leader leads.
pub open spec fn party_consistent(m: WorldModel) -> bool {
    &&& forall|k: u64| #[trigger] m.party_memberships.contains_key(k) ==> !m.party_leaders.contains(k)
        && m.party_leaders.contains(m.party_memberships[k])
}

/// Dissolving a party keeps the party invariants.
pub proof fn lemma_disbanded_keeps_consistency(m: WorldModel, leader: u64)
    requires
        party_consistent(m),
    ensures
        party_consistent(disbanded(m, leader)),
{
    let d = disbanded(m, leader);
    assert forall|k: u64| #[trigger] d.party_memberships.contains_key(k) implies !d.party_leaders.contains(k)
        && d.party_leaders.contains(d.party_memberships[k]) by {
        assert(m.party_memberships.contains_key(k) && m.party_memberships[k] != leader);
        assert(d.party_memberships[k] == m.party_memberships[k]);
    }
}

/// Dissolving a party when it is empty keeps the party invariants.
pub proof fn lemma_disbanded_if_empty_keeps_consistency(m: WorldModel, leader: u64)
    requires
        party_consistent(m),
    ensures
        party_consistent(disbanded_if_empty(m, leader)),
{
    lemma_disbanded_keeps_consistency(m, leader);
}

/// Dissolving empty parties one after another keeps the party invariants.
pub proof fn lemma_disband_each_keeps_consistency(m: WorldModel, leaders: Seq<u64>, keep: Option<u64>)
    requires
        party_consistent(m),
    ensures
        party_consistent(disband_each_empty(m, leaders, keep)),
    decreases leaders.len(),
{
    if leaders.len() > 0 {
        lemma_disband_each_keeps_consistency(m, leaders.drop_last(), keep);
        lemma_disbanded_if_empty_keeps_consistency(disband_each_empty(m, leaders.drop_last(), keep), leaders.last());
    }
}

/// Handing a party to one of its members keeps the party invariants.
pub proof fn lemma_led_by_keeps_consistency(m: WorldModel, leader: u64, successor: u64)
    requires
        party_consistent(m),
        m.party_leaders.contains(leader),
        m.party_memberships.contains_key(successor),
        m.party_memberships[successor] == leader,
    ensures
        party_consistent(led_by(m, leader, successor)),
        !led_by(m, leader, successor).party_memberships.contains_key(leader),
{
    let l = led_by(m, leader, successor);
    assert forall|k: u64| #[trigger] l.party_memberships.contains_key(k) implies !l.party_leaders.contains(k)
        && l.party_leaders.contains(l.party_memberships[k]) by {
        assert(m.party_memberships.contains_key(k) && k != successor);
    }
}

/// Dissolving empty parties changes only the party tables.
pub proof fn lemma_disband_each_frame(m: WorldModel, leaders: Seq<u64>, keep: Option<u64>)
    ensures
        ({
            let d = disband_each_empty(m, leaders, keep);
            d == (WorldModel {
                party_leaders: d.party_leaders,
                party_memberships: d.party_memberships,
                party_invitations: d.party_invitations,
                shared_requested: d.shared_requested,
                shared_activity: d.shared_activity,
                ..m
            })
        }),
    decreases leaders.len(),
{
    if leaders.len() > 0 {
        lemma_disband_each_frame(m, leaders.drop_last(), keep);
    }
}

/// A player leaving the world changes only the party tables.
pub proof fn lemma_party_cleared_frame(m: WorldModel, p: u64)
    ensures
        ({
            let c = party_cleared(m, p);
            c == (WorldModel {
                party_leaders: c.party_leaders,
                party_memberships: c.party_memberships,
                party_invitations: c.party_invitations,
                shared_requested: c.shared_requested,
                shared_activity: c.shared_activity,
                ..m
            })
        }),
{
    let m1 = party_dropped(WorldModel { shared_activity: m.shared_activity.remove(p), ..m }, p);
    lemma_disband_each_frame(
        WorldModel { party_invitations: m1.party_invitations.remove(p), ..m1 },
        crate::keys::sorted_ids(invitations_of(m1, p)),
        None,
    );
}

/// A finite non-empty identifier set has a least element.
pub proof fn lemma_least_exists(s: Set<u64>)
    requires
        s.finite(),
        s != Set::<u64>::empty(),
    ensures
        exists|x: u64| is_least(s, x),
    decreases s.len(),
{
    let a = s.choose();
    if s.len() == 0 {
        assert(s =~= Set::<u64>::empty());
    }
    assert(s.contains(a));
    let r = s.remove(a);
    if r =~= Set::<u64>::empty() {
        assert(is_least(s, a));
    } else {
        lemma_least_exists(r);
        let b = choose|b: u64| is_least(r, b);
        if a < b {
            assert(is_least(s, a));
        } else {
            assert(is_least(s, b));
        }
    }
}

/// A player leaving the world keeps the party invariants.
pub proof fn lemma_party_cleared_keeps_consistency(m: WorldModel, p: u64)
    requires
        party_consistent(m),
        m.party_memberships.dom().finite(),
    ensures
        party_consistent(party_cleared(m, p)),
{
    let m0 = WorldModel { shared_activity: m.shared_activity.remove(p), ..m };
    assert(party_consistent(m0));
    let m1 = party_dropped(m0, p);
    if m0.party_leaders.contains(p) {
        let ms = members_of(m0.party_memberships, p);
        if ms == Set::<u64>::empty() {
            lemma_disbanded_keeps_consistency(m0, p);
        } else {
            assert(ms.finite());
            lemma_least_exists(ms);
            let s = choose|s: u64| is_least(ms, s);
            lemma_led_by_keeps_consistency(m0, p, s);
        }
    } else if m0.party_memberships.contains_key(p) {
        let r = WorldModel { party_memberships: m0.party_memberships.remove(p), ..m0 };
        assert(party_consistent(r));
        lemma_disbanded_if_empty_keeps_consistency(r, m0.party_memberships[p]);
    }
    assert(party_consistent(m1));
    let m2 = WorldModel { party_invitations: m1.party_invitations.remove(p), ..m1 };
    lemma_disband_each_keeps_consistency(m2, crate::keys::sorted_ids(invitations_of(m1, p)), None);
}

/// The pending invitations of a player (none when no entry exists).
pub open spec fn invitations_of(m: WorldModel, id: u64) -> Set<u64> {
    if m.party_invitations.contains_key(id) { m.party_invitations[id] } else { Set::empty() }
}

/// A player leads or belongs to a party.
pub open spec fn in_party(m: WorldModel, id: u64) -> bool {
    m.party_leaders.contains(id) || m.party_memberships.contains_key(id)
}

/// A persisted party is accepted: no member twice, the leader not among its members, and the
/// leader and every member registered and in no party.
pub open spec fn party_restore_accepted(m: WorldModel, leader: u64, members: Seq<u64>) -> bool {
    &&& !(exists|i: int, j: int| 0 <= i < j < members.len() && members[i] == members[j])
    &&& !members.contains(leader)
    &&& m.players.contains_key(leader)
    &&& !in_party(m, leader)
    &&& forall|i: int| 0 <= i < members.len() ==> m.players.contains_key(#[trigger] members[i]) && !in_party(m, members[i])
}

/// The index of the first listed member from `t` on that is unregistered or already in a party.
pub open spec fn first_unfit_member(m: WorldModel, members: Seq<u64>, t: int) -> Option<int>
    decreases members.len() - t,
{
    if t < 0 || t >= members.len() {
        None
    } else if !m.players.contains_key(members[t]) || in_party(m, members[t]) {
        Some(t)
    } else {
        first_unfit_member(m, members, t + 1)
    }
}

/// The world after a persisted party is restored: the leader leads and each member belongs to it.
pub open spec fn party_restored(m: WorldModel, leader: u64, members: Seq<u64>) -> WorldModel {
    WorldModel {
        party_leaders: m.party_leaders.insert(leader),
        party_memberships: Map::new(
            |k: u64| m.party_memberships.contains_key(k) || members.to_set().contains(k),
            |k: u64| if members.to_set().contains(k) { leader } else { m.party_memberships[k] }),
        ..m
    }
}

/// The leader of a player's live party, if any.
pub open spec fn party_leader_of(m: WorldModel, id: u64) -> Option<u64> {
    if m.party_leaders.contains(id) {
        Some(id)
    } else if m.party_memberships.contains_key(id) {
        Some(m.party_memberships[id])
    } else {
        None
    }
}

pub open spec fn with_revision_bumped(m: WorldModel) -> WorldModel {
    WorldModel { revision: bumped(m.revision), ..m }
}

/// The participants of a party: its leader, then its members ascending.
pub open spec fn participants(m: WorldModel, leader: u64) -> Seq<u64> {
    seq![leader] + crate::keys::sorted_ids(members_of(m.party_memberships, leader))
}

/// The highest level among the listed participants that are registered players.
pub open spec fn highest_level(m: WorldModel, ps: Seq<u64>) -> u32
    decreases ps.len(),
{
    if ps.len() == 0 {
        0
    } else {
        let rest = highest_level(m, ps.drop_last());
        let p = ps.last();
        if m.players.contains_key(p) && m.players[p].level > rest { m.players[p].level } else { rest }
    }
}

/// Two thirds of the highest level, rounded up, with saturating arithmetic.
pub open spec fn minimum_shared_level(highest: u32) -> u32 {
    let doubled = if highest * 2 > u32::MAX { u32::MAX as int } else { highest * 2 };
    let raised = if doubled + 2 > u32::MAX { u32::MAX as int } else { doubled + 2 };
    (raised / 3) as u32
}

/// The first reason a single participant blocks shared experience, if any.
pub open spec fn participant_failure(m: WorldModel, rules: PartySharedExperienceRules, leader: u64, minimum: u32, p: u64)
    -> Option<PartySharedExperienceEligibility> {
    if !m.players.contains_key(p) || m.players[p].level < minimum {
        Some(PartySharedExperienceEligibility::LevelSpreadTooLarge)
    } else {
        let a = m.players[p].position;
        let b = m.players[leader].position;
        let range = crate::geometry::chebyshev(a, b);
        if range > rules.maximum_range || diff(a.z as int, b.z as int) > rules.maximum_floor_delta {
            Some(PartySharedExperienceEligibility::TooFarAway)
        } else if !(m.shared_activity.contains_key(p) && (if m.tick >= m.shared_activity[p] {
            m.tick - m.shared_activity[p] } else { 0 }) <= rules.activity_window_ticks) {
            Some(PartySharedExperienceEligibility::MemberInactive)
        } else {
            None
        }
    }
}

/// The eligibility decided by the first failing participant from position `i` on.
pub open spec fn first_failure(m: WorldModel, rules: PartySharedExperienceRules, leader: u64, minimum: u32,
    ps: Seq<u64>, i: int) -> PartySharedExperienceEligibility
    decreases ps.len() - i,
{
    if i >= ps.len() || i < 0 {
        PartySharedExperienceEligibility::Eligible
    } else {
        match participant_failure(m, rules, leader, minimum, ps[i]) {
            Some(e) => e,
            None => first_failure(m, rules, leader, minimum, ps, i + 1),
        }
    }
}

/// The shared-experience state of a leader's party.
pub open spec fn shared_experience_state(m: WorldModel, leader: u64, rules: PartySharedExperienceRules)
    -> Result<PartySharedExperienceState, CoreError> {
    if !m.players.contains_key(leader) {
        Err(CoreError::UnknownPlayer(leader))
    } else if !m.party_leaders.contains(leader) {
        Err(CoreError::PlayerNotInParty(leader))
    } else if !m.shared_requested.contains(leader) {
        Ok(PartySharedExperienceState { requested: false, eligibility: PartySharedExperienceEligibility::NotRequested })
    } else if members_of(m.party_memberships, leader) == Set::<u64>::empty() {
        Ok(PartySharedExperienceState { requested: true, eligibility: PartySharedExperienceEligibility::EmptyParty })
    } else {
        let ps = participants(m, leader);
        let minimum = minimum_shared_level(highest_level(m, ps));
        Ok(PartySharedExperienceState { requested: true, eligibility: first_failure(m, rules, leader, minimum, ps, 0) })
    }
}

/// The relation an observer displays for a target (both registered).
pub open spec fn display_relation(m: WorldModel, observer: u64, target: u64) -> PartyDisplayRelation {
    let observer_leader = party_leader_of(m, observer);
    let target_leader = party_leader_of(m, target);
    if observer_leader is Some && target == observer_leader->0 {
        PartyDisplayRelation::Leader
    } else if observer_leader is Some && target_leader == observer_leader {
        PartyDisplayRelation::Member
    } else if observer_leader is Some && invitations_of(m, target).contains(observer_leader->0) {
        PartyDisplayRelation::InvitationToLeader
    } else if invitations_of(m, observer).contains(target) {
        PartyDisplayRelation::InvitationFromLeader
    } else {
        PartyDisplayRelation::Unrelated
    }
}

/// The memberships whose value is `leader`, ascending.
fn members_with_value(memberships: &BTreeMap<u64, u64>, leader: u64) -> (r: Vec<u64>)
    ensures
        r@.to_set() == members_of(memberships@, leader),
        strictly_increasing(r@),
        forall|i: int| 0 <= i < r@.len() ==> members_of(memberships@, leader).contains(#[trigger] r@[i]),
{
    let keys = map_keys(memberships);
    let mut out: Vec<u64> = Vec::new();
    let mut i: usize = 0;
    while i < keys.len()
        invariant
            i <= keys@.len(),
            strictly_increasing(keys@),
            forall|j: int| 0 <= j < keys@.len() ==> memberships@.contains_key(#[trigger] keys@[j]),
            forall|k: u64| #[trigger] memberships@.contains_key(k) ==> keys@.contains(k),
            strictly_increasing(out@),
            forall|j: int| 0 <= j < out@.len() ==> members_of(memberships@, leader).contains(#[trigger] out@[j]),
            forall|j: int| 0 <= j < out@.len() ==> exists|t: int| 0 <= t < i && keys@[t] == #[trigger] out@[j],
            forall|j: int| 0 <= j < i && memberships@[#[trigger] keys@[j]] == leader ==> out@.contains(keys@[j]),
        decreases keys.len() - i,
    {
        let k = keys[i];
        let v = *memberships.get(&k).unwrap();
        if v == leader {
            proof {
                assert forall|j: int| 0 <= j < out@.len() implies out@[j] < k by {
                    let t = choose|t: int| 0 <= t < i && keys@[t] == out@[j];
                }
            }
            let ghost before = out@;
            out.push(k);
            proof {
                assert forall|x: u64| before.contains(x) implies out@.contains(x) by {
                    let j = choose|j: int| 0 <= j < before.len() && before[j] == x;
                    assert(out@[j] == x);
                }
                assert(out@[before.len() as int] == k);
            }
        }
        i = i + 1;
    }
    proof {
        assert forall|k: u64| members_of(memberships@, leader).contains(k) implies out@.contains(k) by {
            assert(keys@.contains(k));
            let j = choose|j: int| 0 <= j < keys@.len() && keys@[j] == k;
            assert(memberships@[keys@[j]] == leader);
        }
        assert(out@.to_set() =~= members_of(memberships@, leader));
    }
    out
}

/// Memberships with every member of `leader` dropped.
fn retain_other_parties(memberships: &BTreeMap<u64, u64>, leader: u64) -> (r: BTreeMap<u64, u64>)
    ensures
        r@ == memberships_without(memberships@, leader),
{
    let keys = map_keys(memberships);
    let mut out: BTreeMap<u64, u64> = BTreeMap::new();
    let mut i: usize = 0;
    while i < keys.len()
        invariant
            i <= keys@.len(),
            forall|j: int| 0 <= j < keys@.len() ==> memberships@.contains_key(#[trigger] keys@[j]),
            forall|k: u64| #[trigger] memberships@.contains_key(k) ==> keys@.contains(k),
            forall|k: u64| #[trigger] out@.contains_key(k) ==> memberships@.contains_key(k)
                && memberships@[k] != leader && out@[k] == memberships@[k],
            forall|j: int| 0 <= j < i && memberships@[#[trigger] keys@[j]] != leader ==> out@.contains_key(keys@[j]),
        decreases keys.len() - i,
    {
        let k = keys[i];
        let v = *memberships.get(&k).unwrap();
        if v != leader {
            out.insert(k, v);
        }
        i = i + 1;
    }
    proof {
        assert forall|k: u64| memberships_without(memberships@, leader).contains_key(k) implies out@.contains_key(k) by {
            assert(keys@.contains(k));
            let j = choose|j: int| 0 <= j < keys@.len() && keys@[j] == k;
            assert(memberships@[keys@[j]] != leader);
        }
        assert(out@ =~= memberships_without(memberships@, leader));
    }
    out
}

/// Memberships with every member of `from` moved to `to`.
fn move_party_members(memberships: &BTreeMap<u64, u64>, from: u64, to: u64) -> (r: BTreeMap<u64, u64>)
    ensures
        r@ == memberships_moved(memberships@, from, to),
{
    let keys = map_keys(memberships);
    let mut out: BTreeMap<u64, u64> = BTreeMap::new();
    let mut i: usize = 0;
    while i < keys.len()
        invariant
            i <= keys@.len(),
            forall|j: int| 0 <= j < keys@.len() ==> memberships@.contains_key(#[trigger] keys@[j]),
            forall|k: u64| #[trigger] memberships@.contains_key(k) ==> keys@.contains(k),
            forall|k: u64| #[trigger] out@.contains_key(k) ==> memberships@.contains_key(k)
                && out@[k] == memberships_moved(memberships@, from, to)[k],
            forall|j: int| 0 <= j < i ==> out@.contains_key(#[trigger] keys@[j]),
        decreases keys.len() - i,
    {
        let k = keys[i];
        let v = *memberships.get(&k).unwrap();
        out.insert(k, if v == from { to } else { v });
        i = i + 1;
    }
    proof {
        assert forall|k: u64| memberships@.contains_key(k) implies out@.contains_key(k) by {
            assert(keys@.contains(k));
        }
        assert(out@ =~= memberships_moved(memberships@, from, to));
    }
    out
}

/// The model of an invitation table.
pub open spec fn invitation_view(inv: BTreeMap<u64, BTreeSet<u64>>) -> Map<u64, Set<u64>> {
    inv@.map_values(|s: BTreeSet<u64>| s@)
}

/// Invitations with `leader` dropped (and emptied sets removed).
fn drop_inviter(invitations: &BTreeMap<u64, BTreeSet<u64>>, leader: u64) -> (r: BTreeMap<u64, BTreeSet<u64>>)
    ensures
        invitation_view(r) == invitations_without(invitation_view(*invitations), leader),
{
    let ghost inv = invitation_view(*invitations);
    let keys = map_keys(invitations);
    let mut out: BTreeMap<u64, BTreeSet<u64>> = BTreeMap::new();
    let mut i: usize = 0;
    while i < keys.len()
        invariant
            inv == invitation_view(*invitations),
            i <= keys@.len(),
            forall|j: int| 0 <= j < keys@.len() ==> invitations@.contains_key(#[trigger] keys@[j]),
            forall|k: u64| #[trigger] invitations@.contains_key(k) ==> keys@.contains(k),
            forall|k: u64| #[trigger] out@.contains_key(k) ==> invitations_without(inv, leader).contains_key(k)
                && out@[k]@ == invitations_without(inv, leader)[k],
            forall|j: int| 0 <= j < i && invitations_without(inv, leader).contains_key(#[trigger] keys@[j])
                ==> out@.contains_key(keys@[j]),
        decreases keys.len() - i,
    {
        let k = keys[i];
        let mut s = invitations.get(&k).unwrap().clone();
        s.remove(&leader);
        if !s.is_empty() {
            proof {
                assert(s@ != Set::<u64>::empty()) by {
                    if s@ == Set::<u64>::empty() { assert(s@.len() == 0); }
                }
            }
            out.insert(k, s);
        } else {
            proof { assert(s@ =~= Set::<u64>::empty()); }
        }
        i = i + 1;
    }
    proof {
        assert forall|k: u64| invitations_without(inv, leader).contains_key(k) implies out@.contains_key(k) by {
            assert(keys@.contains(k));
        }
        assert(invitation_view(out) =~= invitations_without(inv, leader));
    }
    out
}

/// Invitations from `from` re-addressed to `to`.
fn move_inviter(invitations: &BTreeMap<u64, BTreeSet<u64>>, from: u64, to: u64) -> (r: BTreeMap<u64, BTreeSet<u64>>)
    ensures
        invitation_view(r) == invitations_moved(invitation_view(*invitations), from, to),
{
    let ghost inv = invitation_view(*invitations);
    let keys = map_keys(invitations);
    let mut out: BTreeMap<u64, BTreeSet<u64>> = BTreeMap::new();
    let mut i: usize = 0;
    while i < keys.len()
        invariant
            inv == invitation_view(*invitations),
            i <= keys@.len(),
            forall|j: int| 0 <= j < keys@.len() ==> invitations@.contains_key(#[trigger] keys@[j]),
            forall|k: u64| #[trigger] invitations@.contains_key(k) ==> keys@.contains(k),
            forall|k: u64| #[trigger] out@.contains_key(k) ==> inv.contains_key(k)
                && out@[k]@ == invitations_moved(inv, from, to)[k],
            forall|j: int| 0 <= j < i ==> out@.contains_key(#[trigger] keys@[j]),
        decreases keys.len() - i,
    {
        let k = keys[i];
        let mut s = invitations.get(&k).unwrap().clone();
        if s.remove(&from) {
            s.insert(to);
        }
        out.insert(k, s);
        i = i + 1;
    }
    proof {
        assert forall|k: u64| inv.contains_key(k) implies out@.contains_key(k) by {
            assert(keys@.contains(k));
        }
        assert(invitation_view(out) =~= invitations_moved(inv, from, to));
    }
    out
}

impl WorldState {
    fn ensure_party_player_exists(&self, player_id: u64) -> (r: Result<(), CoreError>)
        ensures
            self@.players.contains_key(player_id) ==> r is Ok,
            !self@.players.contains_key(player_id) ==> r == Err::<(), CoreError>(CoreError::UnknownPlayer(player_id)),
    {
        if self.players.contains_key(&player_id) { Ok(()) } else { Err(CoreError::UnknownPlayer(player_id)) }
    }

    fn party_member_ids(&self, leader_id: u64) -> (r: Vec<u64>)
        ensures
            r@.to_set() == members_of(self@.party_memberships, leader_id),
            strictly_increasing(r@),
            forall|i: int| 0 <= i < r@.len() ==> members_of(self@.party_memberships, leader_id).contains(#[trigger] r@[i]),
    {
        members_with_value(&self.party_memberships, leader_id)
    }

    fn party_has_invitations(&self, leader_id: u64) -> (r: bool)
        ensures
            r == has_invitations(self@.party_invitations, leader_id),
    {
        let keys = map_keys(&self.party_invitations);
        let mut i: usize = 0;
        while i < keys.len()
            invariant
                i <= keys@.len(),
                forall|j: int| 0 <= j < keys@.len() ==> self.party_invitations@.contains_key(#[trigger] keys@[j]),
                forall|k: u64| #[trigger] self.party_invitations@.contains_key(k) ==> keys@.contains(k),
                forall|j: int| 0 <= j < i ==> !self@.party_invitations[#[trigger] keys@[j]].contains(leader_id),
            decreases keys.len() - i,
        {
            let k = keys[i];
            if self.party_invitations.get(&k).unwrap().contains(&leader_id) {
                proof {
                    assert(self@.party_invitations.contains_key(k));
                    assert(self@.party_invitations[k].contains(leader_id));
                }
                return true;
            }
            i = i + 1;
        }
        proof {
            assert forall|k: u64| self@.party_invitations.contains_key(k) implies
                !(#[trigger] self@.party_invitations[k]).contains(leader_id) by {
                assert(keys@.contains(k));
                let j = choose|j: int| 0 <= j < keys@.len() && keys@[j] == k;
            }
        }
        false
    }

    fn disband_party(&mut self, leader_id: u64)
        ensures
            final(self)@ == disbanded(old(self)@, leader_id),
    {
        let ghost m = self@;
        let member_ids = self.party_member_ids(leader_id);
        self.party_leaders.remove(&leader_id);
        self.party_shared_experience_requested.remove(&leader_id);
        self.party_shared_experience_activity_ticks.remove(&leader_id);
        let mut i: usize = 0;
        while i < member_ids.len()
            invariant
                i <= member_ids@.len(),
                self.party_shared_experience_activity_ticks@ == m.shared_activity.remove(leader_id)
                    .remove_keys(member_ids@.take(i as int).to_set()),
                self@ == (WorldModel {
                    party_leaders: m.party_leaders.remove(leader_id),
                    shared_requested: m.shared_requested.remove(leader_id),
                    shared_activity: self@.shared_activity,
                    ..m
                }),
            decreases member_ids.len() - i,
        {
            let k = member_ids[i];
            self.party_shared_experience_activity_ticks.remove(&k);
            proof {
                assert(member_ids@.take(i + 1) =~= member_ids@.take(i as int).push(k));
                member_ids@.take(i as int).lemma_push_to_set_commute(k);
                assert(self.party_shared_experience_activity_ticks@ =~= m.shared_activity.remove(leader_id)
                    .remove_keys(member_ids@.take(i + 1).to_set()));
            }
            i = i + 1;
        }
        proof {
            assert(member_ids@.take(member_ids@.len() as int) =~= member_ids@);
        }
        self.party_memberships = retain_other_parties(&self.party_memberships, leader_id);
        self.party_invitations = drop_inviter(&self.party_invitations, leader_id);
        proof {
            assert(self@.shared_activity =~= m.shared_activity.remove_keys(
                members_of(m.party_memberships, leader_id).insert(leader_id)));
            assert(self@.party_invitations =~= invitation_view(self.party_invitations));
            assert(self@.party_leaders =~= m.party_leaders.remove(leader_id));
            assert(self@.shared_requested =~= m.shared_requested.remove(leader_id));
            assert(self@.party_memberships =~= memberships_without(m.party_memberships, leader_id));
            assert(self@.party_invitations =~= invitations_without(m.party_invitations, leader_id));
            assert(self@ =~= disbanded(m, leader_id));
        }
    }

    fn disband_party_if_empty(&mut self, leader_id: u64)
        ensures
            final(self)@ == disbanded_if_empty(old(self)@, leader_id),
    {
        if self.party_leaders.contains(&leader_id) {
            let members = self.party_member_ids(leader_id);
            if members.len() == 0 && !self.party_has_invitations(leader_id) {
                proof {
                    assert(members_of(self@.party_memberships, leader_id) =~= Set::<u64>::empty());
                }
                self.disband_party(leader_id);
            } else {
                proof {
                    if members.len() != 0 {
                        assert(members_of(self@.party_memberships, leader_id).contains(members@[0]));
                    }
                }
            }
        }
    }

    fn pass_leadership(&mut self, leader_id: u64, new_leader_id: u64)
        ensures
            final(self)@ == led_by(old(self)@, leader_id, new_leader_id),
    {
        let ghost m = self@;
        self.party_leaders.remove(&leader_id);
        self.party_leaders.insert(new_leader_id);
        if self.party_shared_experience_requested.remove(&leader_id) {
            self.party_shared_experience_requested.insert(new_leader_id);
        }
        self.party_memberships.remove(&new_leader_id);
        self.party_memberships = move_party_members(&self.party_memberships, leader_id, new_leader_id);
        self.party_invitations = move_inviter(&self.party_invitations, leader_id, new_leader_id);
        proof {
            assert(self@.party_invitations =~= invitation_view(self.party_invitations));
            assert(self@ =~= led_by(m, leader_id, new_leader_id));
        }
    }

    fn remove_party_leader(&mut self, leader_id: u64)
        ensures
            members_of(old(self)@.party_memberships, leader_id) == Set::<u64>::empty()
                ==> final(self)@ == disbanded(old(self)@, leader_id),
            members_of(old(self)@.party_memberships, leader_id) != Set::<u64>::empty()
                ==> exists|s: u64| is_least(members_of(old(self)@.party_memberships, leader_id), s)
                    && final(self)@ == led_by(old(self)@, leader_id, s),
            final(self)@ == (WorldModel {
                party_leaders: final(self)@.party_leaders,
                party_memberships: final(self)@.party_memberships,
                party_invitations: final(self)@.party_invitations,
                shared_requested: final(self)@.shared_requested,
                shared_activity: final(self)@.shared_activity,
                ..old(self)@
            }),
    {
        let member_ids = self.party_member_ids(leader_id);
        if member_ids.len() == 0 {
            proof { assert(members_of(self@.party_memberships, leader_id) =~= Set::<u64>::empty()); }
            self.disband_party(leader_id);
            return;
        }
        proof { assert(members_of(self@.party_memberships, leader_id).contains(member_ids@[0])); }
        let new_leader_id = member_ids[0];
        proof {
            let ms = members_of(self@.party_memberships, leader_id);
            assert(ms.contains(new_leader_id));
            assert forall|y: u64| ms.contains(y) implies new_leader_id <= y by {
                assert(member_ids@.to_set().contains(y));
                let j = choose|j: int| 0 <= j < member_ids@.len() && member_ids@[j] == y;
                if j > 0 { assert(member_ids@[0] < member_ids@[j]); }
            }
            assert(is_least(ms, new_leader_id));
            assert(ms != Set::<u64>::empty());
        }
        self.pass_leadership(leader_id, new_leader_id);
    }

    /// Drops a player's party state when the player leaves the world.
    pub(crate) fn clear_player_party_state(&mut self, player_id: u64)
        ensures
            final(self)@ == party_cleared(old(self)@, player_id),
    {
        let ghost m = self@;
        self.party_shared_experience_activity_ticks.remove(&player_id);
        let ghost m0 = self@;
        proof { assert(m0 == (WorldModel { shared_activity: m.shared_activity.remove(player_id), ..m })); }
        if self.party_leaders.contains(&player_id) {
            self.remove_party_leader(player_id);
            proof {
                let ms = members_of(m0.party_memberships, player_id);
                if ms != Set::<u64>::empty() {
                    let s = choose|s: u64| is_least(ms, s) && self@ == led_by(m0, player_id, s);
                    let c = choose|s: u64| is_least(ms, s);
                    assert(s <= c && c <= s);
                }
            }
        } else {
            match self.party_memberships.remove(&player_id) {
                Some(leader_id) => {
                    proof {
                        assert(self@ == (WorldModel { party_memberships: m0.party_memberships.remove(player_id), ..m0 }));
                    }
                    self.disband_party_if_empty(leader_id);
                },
                None => {},
            }
        }
        let ghost m1 = self@;
        proof { assert(m1 == party_dropped(m0, player_id)); }
        let inviting = match self.party_invitations.remove(&player_id) {
            Some(s) => s,
            None => BTreeSet::new(),
        };
        let ghost m2 = self@;
        proof {
            assert(m2 == (WorldModel { party_invitations: m1.party_invitations.remove(player_id), ..m1 }));
            assert(inviting@ == invitations_of(m1, player_id));
        }
        let leaders = set_keys(&inviting);
        proof {
            crate::keys::lemma_sorted_ids(leaders@, inviting@);
            assert(leaders@.take(0) =~= Seq::<u64>::empty());
        }
        let mut i: usize = 0;
        while i < leaders.len()
            invariant
                i <= leaders@.len(),
                self@ == disband_each_empty(m2, leaders@.take(i as int), None),
            decreases leaders.len() - i,
        {
            let l = leaders[i];
            proof { assert(leaders@.take(i + 1).drop_last() =~= leaders@.take(i as int)); }
            self.disband_party_if_empty(l);
            i = i + 1;
        }
        proof { assert(leaders@.take(leaders@.len() as int) =~= leaders@); }
    }
}

impl WorldState {
    /// Creates one invitation from a leader (or a free player who becomes one) to a free player.
    pub fn invite_to_party(&mut self, leader_id: u64, invitee_id: u64) -> (r: Result<(), CoreError>)
        ensures
            !old(self)@.players.contains_key(leader_id) ==> r == Err::<(), CoreError>(CoreError::UnknownPlayer(leader_id)),
            old(self)@.players.contains_key(leader_id) && !old(self)@.players.contains_key(invitee_id)
                ==> r == Err::<(), CoreError>(CoreError::UnknownPlayer(invitee_id)),
            old(self)@.players.contains_key(leader_id) && old(self)@.players.contains_key(invitee_id) ==> {
                if leader_id == invitee_id {
                    r == Err::<(), CoreError>(CoreError::SelfInteractionNotAllowed(leader_id))
                } else if old(self)@.party_memberships.contains_key(leader_id) {
                    r == Err::<(), CoreError>(CoreError::PlayerAlreadyInParty(leader_id))
                } else if in_party(old(self)@, invitee_id) {
                    r == Err::<(), CoreError>(CoreError::PlayerAlreadyInParty(invitee_id))
                } else if invitations_of(old(self)@, invitee_id).contains(leader_id) {
                    r == Err::<(), CoreError>(CoreError::DuplicatePartyInvitation { leader_id, invitee_id })
                } else {
                    &&& r is Ok
                    &&& final(self)@ == with_revision_bumped(WorldModel {
                        party_invitations: old(self)@.party_invitations.insert(invitee_id,
                            invitations_of(old(self)@, invitee_id).insert(leader_id)),
                        party_leaders: old(self)@.party_leaders.insert(leader_id),
                        ..old(self)@
                    })
                }
            },
            r is Err ==> final(self)@ == old(self)@,
            party_consistent(old(self)@) ==> party_consistent(final(self)@),
    {
        self.ensure_party_player_exists(leader_id)?;
        self.ensure_party_player_exists(invitee_id)?;
        if leader_id == invitee_id {
            return Err(CoreError::SelfInteractionNotAllowed(leader_id));
        }
        if self.party_memberships.contains_key(&leader_id) {
            return Err(CoreError::PlayerAlreadyInParty(leader_id));
        }
        if self.party_leaders.contains(&invitee_id) || self.party_memberships.contains_key(&invitee_id) {
            return Err(CoreError::PlayerAlreadyInParty(invitee_id));
        }
        let mut invitations = match self.party_invitations.get(&invitee_id) {
            Some(set) => set.clone(),
            None => BTreeSet::new(),
        };
        if invitations.contains(&leader_id) {
            return Err(CoreError::DuplicatePartyInvitation { leader_id, invitee_id });
        }
        invitations.insert(leader_id);
        let ghost m = self@;
        self.party_invitations.insert(invitee_id, invitations);
        self.party_leaders.insert(leader_id);
        self.mark_changed();
        proof {
            assert(self@.party_invitations =~= m.party_invitations.insert(invitee_id,
                invitations_of(m, invitee_id).insert(leader_id)));
        }
        Ok(())
    }

    /// Joins the party of one inviting leader and drops every competing invitation; parties of
    /// the other inviting leaders that are left empty are dissolved.
    pub fn accept_party_invitation(&mut self, invitee_id: u64, leader_id: u64) -> (r: Result<(), CoreError>)
        ensures
            !old(self)@.players.contains_key(invitee_id) ==> r == Err::<(), CoreError>(CoreError::UnknownPlayer(invitee_id)),
            old(self)@.players.contains_key(invitee_id) && !old(self)@.players.contains_key(leader_id)
                ==> r == Err::<(), CoreError>(CoreError::UnknownPlayer(leader_id)),
            old(self)@.players.contains_key(invitee_id) && old(self)@.players.contains_key(leader_id) ==> {
                if !invitations_of(old(self)@, invitee_id).contains(leader_id) {
                    r == Err::<(), CoreError>(CoreError::PartyInvitationNotFound { leader_id, invitee_id })
                } else if in_party(old(self)@, invitee_id) {
                    r == Err::<(), CoreError>(CoreError::PlayerAlreadyInParty(invitee_id))
                } else if !old(self)@.party_leaders.contains(leader_id) {
                    r == Err::<(), CoreError>(CoreError::PlayerNotInParty(leader_id))
                } else {
                    &&& r is Ok
                    &&& final(self)@ == with_revision_bumped(disband_each_empty(WorldModel {
                        party_invitations: old(self)@.party_invitations.remove(invitee_id),
                        party_memberships: old(self)@.party_memberships.insert(invitee_id, leader_id),
                        ..old(self)@
                    }, crate::keys::sorted_ids(invitations_of(old(self)@, invitee_id)), Some(leader_id)))
                }
            },
            r is Err ==> final(self)@ == old(self)@,
            party_consistent(old(self)@) ==> party_consistent(final(self)@),
    {
        self.ensure_party_player_exists(invitee_id)?;
        self.ensure_party_player_exists(leader_id)?;
        let invited = match self.party_invitations.get(&invitee_id) {
            Some(set) => set.contains(&leader_id),
            None => false,
        };
        if !invited {
            return Err(CoreError::PartyInvitationNotFound { leader_id, invitee_id });
        }
        if self.party_leaders.contains(&invitee_id) || self.party_memberships.contains_key(&invitee_id) {
            return Err(CoreError::PlayerAlreadyInParty(invitee_id));
        }
        if !self.party_leaders.contains(&leader_id) {
            return Err(CoreError::PlayerNotInParty(leader_id));
        }
        let ghost m = self@;
        let inviting = match self.party_invitations.remove(&invitee_id) {
            Some(set) => set,
            None => BTreeSet::new(),
        };
        self.party_memberships.insert(invitee_id, leader_id);
        let ghost m1 = self@;
        proof {
            assert(m1 == (WorldModel {
                party_invitations: m.party_invitations.remove(invitee_id),
                party_memberships: m.party_memberships.insert(invitee_id, leader_id),
                ..m
            }));
            assert(inviting@ == invitations_of(m, invitee_id));
        }
        let leaders = set_keys(&inviting);
        proof {
            crate::keys::lemma_sorted_ids(leaders@, inviting@);
            assert(leaders@.take(0) =~= Seq::<u64>::empty());
        }
        let mut i: usize = 0;
        while i < leaders.len()
            invariant
                i <= leaders@.len(),
                self@ == disband_each_empty(m1, leaders@.take(i as int), Some(leader_id)),
            decreases leaders.len() - i,
        {
            let other = leaders[i];
            proof { assert(leaders@.take(i + 1).drop_last() =~= leaders@.take(i as int)); }
            if other != leader_id {
                self.disband_party_if_empty(other);
            }
            i = i + 1;
        }
        proof {
            assert(leaders@.take(leaders@.len() as int) =~= leaders@);
            if party_consistent(m) {
                assert forall|k: u64| #[trigger] m1.party_memberships.contains_key(k) implies !m1.party_leaders.contains(k)
                    && m1.party_leaders.contains(m1.party_memberships[k]) by {
                    if k != invitee_id {
                        assert(m.party_memberships.contains_key(k));
                    }
                }
                lemma_disband_each_keeps_consistency(m1, leaders@, Some(leader_id));
            }
        }
        self.mark_changed();
        Ok(())
    }

    /// Leaves a live party. A leaving leader hands the party to its lowest member, or dissolves
    /// it when it has none; a leaving member dissolves a party left with no member and no invitation.
    pub fn leave_party(&mut self, player_id: u64) -> (r: Result<(), CoreError>)
        ensures
            !old(self)@.players.contains_key(player_id) ==> r == Err::<(), CoreError>(CoreError::UnknownPlayer(player_id))
                && final(self)@ == old(self)@,
            old(self)@.players.contains_key(player_id) && !in_party(old(self)@, player_id)
                ==> r == Err::<(), CoreError>(CoreError::PlayerNotInParty(player_id)) && final(self)@ == old(self)@,
            old(self)@.players.contains_key(player_id) && old(self)@.party_leaders.contains(player_id) ==> {
                let ms = members_of(old(self)@.party_memberships, player_id);
                &&& r is Ok
                &&& ms == Set::<u64>::empty() ==> final(self)@ == with_revision_bumped(disbanded(old(self)@, player_id))
                &&& ms != Set::<u64>::empty() ==> exists|s: u64| crate::world::party::is_least(ms, s)
                    && final(self)@ == with_revision_bumped(led_by(old(self)@, player_id, s))
            },
            old(self)@.players.contains_key(player_id) && !old(self)@.party_leaders.contains(player_id)
                && old(self)@.party_memberships.contains_key(player_id) ==> {
                &&& r is Ok
                &&& final(self)@ == with_revision_bumped(disbanded_if_empty(WorldModel {
                    party_memberships: old(self)@.party_memberships.remove(player_id),
                    ..old(self)@
                }, old(self)@.party_memberships[player_id]))
            },
            party_consistent(old(self)@) ==> party_consistent(final(self)@),
    {
        self.ensure_party_player_exists(player_id)?;
        if self.party_leaders.contains(&player_id) {
            self.remove_party_leader(player_id);
        } else {
            match self.party_memberships.remove(&player_id) {
                Some(leader_id) => self.disband_party_if_empty(leader_id),
                None => {
                    return Err(CoreError::PlayerNotInParty(player_id));
                },
            }
        }
        self.mark_changed();
        Ok(())
    }

    /// Hands a party to one of its members; invitations follow the party to its new leader.
    pub fn transfer_party_leadership(&mut self, leader_id: u64, new_leader_id: u64) -> (r: Result<(), CoreError>)
        ensures
            !old(self)@.players.contains_key(leader_id) ==> r == Err::<(), CoreError>(CoreError::UnknownPlayer(leader_id)),
            old(self)@.players.contains_key(leader_id) && !old(self)@.players.contains_key(new_leader_id)
                ==> r == Err::<(), CoreError>(CoreError::UnknownPlayer(new_leader_id)),
            old(self)@.players.contains_key(leader_id) && old(self)@.players.contains_key(new_leader_id) ==> {
                if leader_id == new_leader_id {
                    r == Err::<(), CoreError>(CoreError::SelfInteractionNotAllowed(leader_id))
                } else if !old(self)@.party_leaders.contains(leader_id) {
                    r == Err::<(), CoreError>(CoreError::PlayerNotInParty(leader_id))
                } else if !(old(self)@.party_memberships.contains_key(new_leader_id)
                    && old(self)@.party_memberships[new_leader_id] == leader_id) {
                    r == Err::<(), CoreError>(CoreError::PartyLeadershipTargetNotMember { leader_id, new_leader_id })
                } else {
                    let led = led_by(old(self)@, leader_id, new_leader_id);
                    &&& r is Ok
                    &&& final(self)@ == with_revision_bumped(WorldModel {
                        party_memberships: led.party_memberships.insert(leader_id, new_leader_id),
                        ..led
                    })
                }
            },
            r is Err ==> final(self)@ == old(self)@,
            party_consistent(old(self)@) ==> party_consistent(final(self)@),
    {
        self.ensure_party_player_exists(leader_id)?;
        self.ensure_party_player_exists(new_leader_id)?;
        if leader_id == new_leader_id {
            return Err(CoreError::SelfInteractionNotAllowed(leader_id));
        }
        if !self.party_leaders.contains(&leader_id) {
            return Err(CoreError::PlayerNotInParty(leader_id));
        }
        let is_member = match self.party_memberships.get(&new_leader_id) {
            Some(l) => *l == leader_id,
            None => false,
        };
        if !is_member {
            return Err(CoreError::PartyLeadershipTargetNotMember { leader_id, new_leader_id });
        }
        self.pass_leadership(leader_id, new_leader_id);
        self.party_memberships.insert(leader_id, new_leader_id);
        self.mark_changed();
        Ok(())
    }

    /// Revokes one invitation; a party left with no member and no invitation is dissolved.
    pub fn revoke_party_invitation(&mut self, leader_id: u64, invitee_id: u64) -> (r: Result<(), CoreError>)
        ensures
            !old(self)@.players.contains_key(leader_id) ==> r == Err::<(), CoreError>(CoreError::UnknownPlayer(leader_id)),
            old(self)@.players.contains_key(leader_id) && !old(self)@.players.contains_key(invitee_id)
                ==> r == Err::<(), CoreError>(CoreError::UnknownPlayer(invitee_id)),
            old(self)@.players.contains_key(leader_id) && old(self)@.players.contains_key(invitee_id) ==> {
                if !old(self)@.party_leaders.contains(leader_id) {
                    r == Err::<(), CoreError>(CoreError::PlayerNotInParty(leader_id))
                } else if !invitations_of(old(self)@, invitee_id).contains(leader_id) {
                    r == Err::<(), CoreError>(CoreError::PartyInvitationNotFound { leader_id, invitee_id })
                } else {
                    let rest = invitations_of(old(self)@, invitee_id).remove(leader_id);
                    &&& r is Ok
                    &&& final(self)@ == with_revision_bumped(disbanded_if_empty(WorldModel {
                        party_invitations: if rest == Set::<u64>::empty() {
                            old(self)@.party_invitations.remove(invitee_id)
                        } else {
                            old(self)@.party_invitations.insert(invitee_id, rest)
                        },
                        ..old(self)@
                    }, leader_id))
                }
            },
            r is Err ==> final(self)@ == old(self)@,
            party_consistent(old(self)@) ==> party_consistent(final(self)@),
    {
        self.ensure_party_player_exists(leader_id)?;
        self.ensure_party_player_exists(invitee_id)?;
        if !self.party_leaders.contains(&leader_id) {
            return Err(CoreError::PlayerNotInParty(leader_id));
        }
        let mut set = match self.party_invitations.get(&invitee_id) {
            Some(s) => s.clone(),
            None => {
                return Err(CoreError::PartyInvitationNotFound { leader_id, invitee_id });
            },
        };
        if !set.remove(&leader_id) {
            return Err(CoreError::PartyInvitationNotFound { leader_id, invitee_id });
        }
        let ghost m = self@;
        if set.is_empty() {
            proof { assert(set@ =~= Set::<u64>::empty()); }
            self.party_invitations.remove(&invitee_id);
        } else {
            proof { assert(set@ != Set::<u64>::empty()) by { if set@ == Set::<u64>::empty() { assert(set@.len() == 0); } } }
            self.party_invitations.insert(invitee_id, set);
        }
        proof {
            let rest = invitations_of(m, invitee_id).remove(leader_id);
            assert(self@.party_invitations =~= (if rest == Set::<u64>::empty() {
                m.party_invitations.remove(invitee_id) } else { m.party_invitations.insert(invitee_id, rest) }));
        }
        self.disband_party_if_empty(leader_id);
        self.mark_changed();
        Ok(())
    }

    /// The leader of a player's live party; invitation-only players have none.
    pub fn player_party_leader(&self, player_id: u64) -> (r: Result<Option<u64>, CoreError>)
        ensures
            !self@.players.contains_key(player_id) ==> r == Err::<Option<u64>, CoreError>(CoreError::UnknownPlayer(player_id)),
            self@.players.contains_key(player_id) ==> r == Ok::<Option<u64>, CoreError>(party_leader_of(self@, player_id)),
    {
        self.ensure_party_player_exists(player_id)?;
        if self.party_leaders.contains(&player_id) {
            return Ok(Some(player_id));
        }
        match self.party_memberships.get(&player_id) {
            Some(l) => Ok(Some(*l)),
            None => Ok(None),
        }
    }

    /// The members of a live party, ascending.
    pub fn player_party_members(&self, leader_id: u64) -> (r: Result<Vec<u64>, CoreError>)
        ensures
            !self@.players.contains_key(leader_id) ==> r == Err::<Vec<u64>, CoreError>(CoreError::UnknownPlayer(leader_id)),
            self@.players.contains_key(leader_id) && !self@.party_leaders.contains(leader_id)
                ==> r == Err::<Vec<u64>, CoreError>(CoreError::PlayerNotInParty(leader_id)),
            self@.players.contains_key(leader_id) && self@.party_leaders.contains(leader_id) ==> r is Ok
                && r->Ok_0@ == crate::keys::sorted_ids(members_of(self@.party_memberships, leader_id)),
    {
        self.ensure_party_player_exists(leader_id)?;
        if !self.party_leaders.contains(&leader_id) {
            return Err(CoreError::PlayerNotInParty(leader_id));
        }
        let members = self.party_member_ids(leader_id);
        proof { crate::keys::lemma_sorted_ids(members@, members_of(self@.party_memberships, leader_id)); }
        Ok(members)
    }

    /// Every live party as (leader, members ascending), by ascending leader.
    pub fn party_snapshots(&self) -> (r: Vec<(u64, Vec<u64>)>)
        ensures
            r@.len() == self@.party_leaders.len(),
            forall|i: int| 0 <= i < r@.len() ==> self@.party_leaders.contains((#[trigger] r@[i]).0)
                && r@[i].1@ == crate::keys::sorted_ids(members_of(self@.party_memberships, r@[i].0)),
            forall|i: int, j: int| 0 <= i < j < r@.len() ==> r@[i].0 < r@[j].0,
            forall|l: u64| #[trigger] self@.party_leaders.contains(l) ==> exists|i: int| 0 <= i < r@.len() && r@[i].0 == l,
    {
        let leaders = set_keys(&self.party_leaders);
        let mut out: Vec<(u64, Vec<u64>)> = Vec::new();
        let mut i: usize = 0;
        while i < leaders.len()
            invariant
                i <= leaders@.len(),
                out@.len() == i,
                strictly_increasing(leaders@),
                forall|j: int| 0 <= j < leaders@.len() ==> self@.party_leaders.contains(#[trigger] leaders@[j]),
                forall|j: int| 0 <= j < i ==> (#[trigger] out@[j]).0 == leaders@[j]
                    && out@[j].1@ == crate::keys::sorted_ids(members_of(self@.party_memberships, out@[j].0)),
            decreases leaders.len() - i,
        {
            let l = leaders[i];
            let members = self.party_member_ids(l);
            proof { crate::keys::lemma_sorted_ids(members@, members_of(self@.party_memberships, l)); }
            out.push((l, members));
            i = i + 1;
        }
        proof {
            assert forall|l: u64| #[trigger] self@.party_leaders.contains(l) implies exists|i: int| 0 <= i < out@.len() && out@[i].0 == l by {
                assert(leaders@.contains(l));
                let j = choose|j: int| 0 <= j < leaders@.len() && leaders@[j] == l;
                assert(out@[j].0 == l);
            }
        }
        out
    }

    /// Attaches one free player directly to a live leader's party (used when restoring parties).
    pub fn add_existing_party_member(&mut self, leader_id: u64, player_id: u64) -> (r: Result<(), CoreError>)
        ensures
            player_id == leader_id ==> r is Err && r->Err_0 is InvalidPartySnapshot,
            player_id != leader_id && !old(self)@.players.contains_key(leader_id)
                ==> r == Err::<(), CoreError>(CoreError::UnknownPlayer(leader_id)),
            player_id != leader_id && old(self)@.players.contains_key(leader_id) && !old(self)@.players.contains_key(player_id)
                ==> r == Err::<(), CoreError>(CoreError::UnknownPlayer(player_id)),
            player_id != leader_id && old(self)@.players.contains_key(leader_id) && old(self)@.players.contains_key(player_id) ==> {
                if !old(self)@.party_leaders.contains(leader_id) {
                    r == Err::<(), CoreError>(CoreError::PlayerNotInParty(leader_id))
                } else if in_party(old(self)@, player_id) {
                    r == Err::<(), CoreError>(CoreError::PlayerNotInPartyFree(player_id))
                } else {
                    r is Ok && final(self)@ == (WorldModel {
                        party_memberships: old(self)@.party_memberships.insert(player_id, leader_id),
                        ..old(self)@
                    })
                }
            },
            r is Err ==> final(self)@ == old(self)@,
            party_consistent(old(self)@) ==> party_consistent(final(self)@),
    {
        if player_id == leader_id {
            return Err(CoreError::InvalidPartySnapshot("leader cannot be added as a member of itself".to_owned()));
        }
        self.ensure_party_player_exists(leader_id)?;
        self.ensure_party_player_exists(player_id)?;
        if !self.party_leaders.contains(&leader_id) {
            return Err(CoreError::PlayerNotInParty(leader_id));
        }
        if self.party_leaders.contains(&player_id) || self.party_memberships.contains_key(&player_id) {
            return Err(CoreError::PlayerNotInPartyFree(player_id));
        }
        self.party_memberships.insert(player_id, leader_id);
        Ok(())
    }

    /// Restores one persisted party: its leader and its non-leader members. Duplicates, a listed
    /// leader, unknown players and players already in a party refuse the snapshot.
    pub fn restore_party_snapshot(&mut self, leader_id: u64, members: &[u64]) -> (r: Result<(), CoreError>)
        ensures
            r is Err ==> final(self)@ == old(self)@,
            (exists|i: int, j: int| 0 <= i < j < members@.len() && members@[i] == members@[j])
                ==> r is Err && r->Err_0 is InvalidPartySnapshot,
            r is Ok <==> party_restore_accepted(old(self)@, leader_id, members@),
            !(exists|i: int, j: int| 0 <= i < j < members@.len() && members@[i] == members@[j]) ==> {
                let m = old(self)@;
                if members@.contains(leader_id) {
                    r is Err && r->Err_0 is InvalidPartySnapshot
                } else if !m.players.contains_key(leader_id) {
                    r == Err::<(), CoreError>(CoreError::UnknownPlayer(leader_id))
                } else if in_party(m, leader_id) {
                    r is Err && r->Err_0 is InvalidPartySnapshot
                } else {
                    match first_unfit_member(m, members@, 0) {
                        Some(k) => if !m.players.contains_key(members@[k]) {
                            r == Err::<(), CoreError>(CoreError::UnknownPlayer(members@[k]))
                        } else {
                            r is Err && r->Err_0 is InvalidPartySnapshot
                        },
                        None => r is Ok,
                    }
                }
            },
            r is Ok ==> final(self)@ == party_restored(old(self)@, leader_id, members@),
            party_consistent(old(self)@) ==> party_consistent(final(self)@),
    {
        let n = members.len();
        let mut i: usize = 0;
        while i < n
            invariant
                n == members@.len(),
                i <= n,
                forall|a: int, b: int| 0 <= a < b < n && a < i ==> members@[a] != members@[b],
            decreases n - i,
        {
            let mut j: usize = i + 1;
            while j < n
                invariant
                    n == members@.len(),
                    i < n,
                    i < j <= n,
                    forall|a: int, b: int| 0 <= a < b < n && a < i ==> members@[a] != members@[b],
                    forall|b: int| i < b < j ==> members@[i as int] != members@[b],
                decreases n - j,
            {
                if members[i] == members[j] {
                    return Err(CoreError::InvalidPartySnapshot("party snapshot contains duplicate members".to_owned()));
                }
                j = j + 1;
            }
            i = i + 1;
        }
        proof {
            assert(!(exists|a: int, b: int| 0 <= a < b < members@.len() && members@[a] == members@[b]));
        }
        let mut k: usize = 0;
        while k < n
            invariant
                n == members@.len(),
                k <= n,
                forall|a: int| 0 <= a < k ==> members@[a] != leader_id,
                forall|a: int, b: int| 0 <= a < b < n ==> members@[a] != members@[b],
            decreases n - k,
        {
            if members[k] == leader_id {
                return Err(CoreError::InvalidPartySnapshot("party snapshot members must not list the leader".to_owned()));
            }
            k = k + 1;
        }
        self.ensure_party_player_exists(leader_id)?;
        if self.party_leaders.contains(&leader_id) || self.party_memberships.contains_key(&leader_id) {
            return Err(CoreError::InvalidPartySnapshot("leader already holds live party state".to_owned()));
        }
        let mut t: usize = 0;
        while t < n
            invariant
                n == members@.len(),
                t <= n,
                forall|a: int| 0 <= a < t ==> self@.players.contains_key(#[trigger] members@[a]) && !in_party(self@, members@[a]),
                forall|a: int, b: int| 0 <= a < b < n ==> members@[a] != members@[b],
                forall|a: int| 0 <= a < n ==> members@[a] != leader_id,
                self@ == old(self)@,
                self@.players.contains_key(leader_id),
                !in_party(self@, leader_id),
                first_unfit_member(self@, members@, 0) == first_unfit_member(self@, members@, t as int),
            decreases n - t,
        {
            let member = members[t];
            proof {
                assert(!members@.contains(leader_id));
                if !self@.players.contains_key(member) || in_party(self@, member) {
                    assert(first_unfit_member(self@, members@, t as int) == Some(t as int));
                }
            }
            self.ensure_party_player_exists(member)?;
            if self.party_leaders.contains(&member) || self.party_memberships.contains_key(&member) {
                return Err(CoreError::InvalidPartySnapshot("member already holds live party state".to_owned()));
            }
            t = t + 1;
        }
        let ghost m = self@;
        let mut u: usize = 0;
        while u < n
            invariant
                n == members@.len(),
                u <= n,
                self@ == (WorldModel {
                    party_memberships: Map::new(
                        |k: u64| m.party_memberships.contains_key(k) || members@.take(u as int).to_set().contains(k),
                        |k: u64| if members@.take(u as int).to_set().contains(k) { leader_id } else { m.party_memberships[k] }),
                    ..m
                }),
            decreases n - u,
        {
            let member = members[u];
            self.party_memberships.insert(member, leader_id);
            proof {
                assert(members@.take(u + 1) =~= members@.take(u as int).push(member));
                members@.take(u as int).lemma_push_to_set_commute(member);
                assert(self@.party_memberships =~= Map::new(
                    |k: u64| m.party_memberships.contains_key(k) || members@.take(u + 1).to_set().contains(k),
                    |k: u64| if members@.take(u + 1).to_set().contains(k) { leader_id } else { m.party_memberships[k] }));
            }
            u = u + 1;
        }
        self.party_leaders.insert(leader_id);
        proof {
            assert(members@.take(n as int) =~= members@);
        }
        Ok(())
    }

    /// Turns the shared-experience request of a leader on or off and reports its eligibility.
    pub fn set_party_shared_experience_requested(&mut self, leader_id: u64, requested: bool,
        rules: PartySharedExperienceRules) -> (r: Result<PartySharedExperienceState, CoreError>)
        ensures
            !old(self)@.players.contains_key(leader_id) ==> r == Err::<PartySharedExperienceState, CoreError>(CoreError::UnknownPlayer(leader_id))
                && final(self)@ == old(self)@,
            old(self)@.players.contains_key(leader_id) && !old(self)@.party_leaders.contains(leader_id)
                ==> r == Err::<PartySharedExperienceState, CoreError>(CoreError::PlayerNotInParty(leader_id)) && final(self)@ == old(self)@,
            old(self)@.players.contains_key(leader_id) && old(self)@.party_leaders.contains(leader_id) ==> {
                let changed = old(self)@.shared_requested.contains(leader_id) != requested;
                let after = WorldModel {
                    shared_requested: if requested { old(self)@.shared_requested.insert(leader_id) }
                        else { old(self)@.shared_requested.remove(leader_id) },
                    revision: if changed { bumped(old(self)@.revision) } else { old(self)@.revision },
                    ..old(self)@
                };
                &&& final(self)@ == after
                &&& r == shared_experience_state(after, leader_id, rules)
            },
            party_consistent(old(self)@) ==> party_consistent(final(self)@),
    {
        self.ensure_party_player_exists(leader_id)?;
        if !self.party_leaders.contains(&leader_id) {
            return Err(CoreError::PlayerNotInParty(leader_id));
        }
        let changed = if requested {
            self.party_shared_experience_requested.insert(leader_id)
        } else {
            self.party_shared_experience_requested.remove(&leader_id)
        };
        if changed {
            self.mark_changed();
        }
        self.party_shared_experience_state(leader_id, rules)
    }

    /// Records a party participant's activity at the current tick.
    pub fn record_party_shared_experience_activity(&mut self, player_id: u64) -> (r: Result<(), CoreError>)
        ensures
            !old(self)@.players.contains_key(player_id) ==> r == Err::<(), CoreError>(CoreError::UnknownPlayer(player_id)),
            old(self)@.players.contains_key(player_id) && party_leader_of(old(self)@, player_id) is None
                ==> r == Err::<(), CoreError>(CoreError::PlayerNotInParty(player_id)),
            r is Err ==> final(self)@ == old(self)@,
            old(self)@.players.contains_key(player_id) && party_leader_of(old(self)@, player_id) is Some ==> {
                let unchanged = old(self)@.shared_activity.contains_key(player_id)
                    && old(self)@.shared_activity[player_id] == old(self)@.tick;
                &&& r is Ok
                &&& final(self)@ == (WorldModel {
                    shared_activity: old(self)@.shared_activity.insert(player_id, old(self)@.tick),
                    revision: if unchanged { old(self)@.revision } else { bumped(old(self)@.revision) },
                    ..old(self)@
                })
            },
            party_consistent(old(self)@) ==> party_consistent(final(self)@),
    {
        self.ensure_party_player_exists(player_id)?;
        let leader = self.player_party_leader(player_id)?;
        if leader.is_none() {
            return Err(CoreError::PlayerNotInParty(player_id));
        }
        let tick = self.tick;
        let previous = self.party_shared_experience_activity_ticks.insert(player_id, tick);
        let unchanged = match previous {
            Some(t) => t == tick,
            None => false,
        };
        if !unchanged {
            self.mark_changed();
        }
        Ok(())
    }

    /// The shared-experience request of a leader and its current eligibility.
    #[verifier::rlimit(40)]
    pub fn party_shared_experience_state(&self, leader_id: u64, rules: PartySharedExperienceRules)
        -> (r: Result<PartySharedExperienceState, CoreError>)
        ensures
            r == shared_experience_state(self@, leader_id, rules),
    {
        self.ensure_party_player_exists(leader_id)?;
        if !self.party_leaders.contains(&leader_id) {
            return Err(CoreError::PlayerNotInParty(leader_id));
        }
        if !self.party_shared_experience_requested.contains(&leader_id) {
            return Ok(PartySharedExperienceState { requested: false, eligibility: PartySharedExperienceEligibility::NotRequested });
        }
        let member_ids = self.party_member_ids(leader_id);
        if member_ids.len() == 0 {
            proof { assert(members_of(self@.party_memberships, leader_id) =~= Set::<u64>::empty()); }
            return Ok(PartySharedExperienceState { requested: true, eligibility: PartySharedExperienceEligibility::EmptyParty });
        }
        proof {
            assert(members_of(self@.party_memberships, leader_id).contains(member_ids@[0]));
            assert(members_of(self@.party_memberships, leader_id) != Set::<u64>::empty()) by {
                if members_of(self@.party_memberships, leader_id) == Set::<u64>::empty() {
                    assert(Set::<u64>::empty().contains(member_ids@[0]));
                }
            }
            crate::keys::lemma_sorted_ids(member_ids@, members_of(self@.party_memberships, leader_id));
        }
        let mut participant_ids: Vec<u64> = Vec::new();
        participant_ids.push(leader_id);
        let mut a: usize = 0;
        while a < member_ids.len()
            invariant
                a <= member_ids@.len(),
                participant_ids@ == seq![leader_id] + member_ids@.take(a as int),
            decreases member_ids.len() - a,
        {
            participant_ids.push(member_ids[a]);
            proof { assert(member_ids@.take(a + 1) =~= member_ids@.take(a as int).push(member_ids@[a as int])); }
            a = a + 1;
        }
        proof {
            assert(member_ids@.take(member_ids@.len() as int) =~= member_ids@);
            assert(participant_ids@ =~= participants(self@, leader_id));
        }
        let ghost ps = participant_ids@;
        let mut highest: u32 = 0;
        let mut b: usize = 0;
        while b < participant_ids.len()
            invariant
                ps == participant_ids@,
                b <= ps.len(),
                highest == highest_level(self@, ps.take(b as int)),
            decreases participant_ids.len() - b,
        {
            let id = participant_ids[b];
            proof { assert(ps.take(b + 1).drop_last() =~= ps.take(b as int)); }
            match self.players.get(&id) {
                Some(p) => {
                    if p.level > highest {
                        highest = p.level;
                    }
                },
                None => {},
            }
            b = b + 1;
        }
        proof { assert(ps.take(ps.len() as int) =~= ps); }
        let doubled: u32 = if highest > u32::MAX / 2 { u32::MAX } else { highest * 2 };
        let minimum = doubled.saturating_add(2) / 3;
        let leader_position = self.players.get(&leader_id).unwrap().position;
        let mut c: usize = 0;
        while c < participant_ids.len()
            invariant
                ps == participant_ids@,
                c <= ps.len(),
                self@.players.contains_key(leader_id),
                leader_position == self@.players[leader_id].position,
                minimum == minimum_shared_level(highest_level(self@, ps)),
                first_failure(self@, rules, leader_id, minimum, ps, 0) == first_failure(self@, rules, leader_id, minimum, ps, c as int),
                ps == participants(self@, leader_id),
                self@.party_leaders.contains(leader_id),
                self@.shared_requested.contains(leader_id),
                members_of(self@.party_memberships, leader_id) != Set::<u64>::empty(),
            decreases participant_ids.len() - c,
        {
            let id = participant_ids[c];
            proof { assert(id == ps[c as int]); }
            let participant = match self.players.get(&id) {
                Some(p) => p,
                None => {
                    proof {
                        assert(participant_failure(self@, rules, leader_id, minimum, id)
                            == Some(PartySharedExperienceEligibility::LevelSpreadTooLarge));
                        assert(first_failure(self@, rules, leader_id, minimum, ps, c as int)
                            == PartySharedExperienceEligibility::LevelSpreadTooLarge);
                    }
                    return Ok(PartySharedExperienceState { requested: true,
                        eligibility: PartySharedExperienceEligibility::LevelSpreadTooLarge });
                },
            };
            if participant.level < minimum {
                proof {
                    assert(participant_failure(self@, rules, leader_id, minimum, id)
                        == Some(PartySharedExperienceEligibility::LevelSpreadTooLarge));
                    assert(first_failure(self@, rules, leader_id, minimum, ps, c as int)
                        == PartySharedExperienceEligibility::LevelSpreadTooLarge);
                }
                return Ok(PartySharedExperienceState { requested: true,
                    eligibility: PartySharedExperienceEligibility::LevelSpreadTooLarge });
            }
            let dx = crate::geometry::abs_diff_u16(participant.position.x, leader_position.x);
            let dy = crate::geometry::abs_diff_u16(participant.position.y, leader_position.y);
            let range = if dx >= dy { dx } else { dy };
            if range > rules.maximum_range
                || crate::geometry::abs_diff_u8(participant.position.z, leader_position.z) > rules.maximum_floor_delta {
                return Ok(PartySharedExperienceState { requested: true,
                    eligibility: PartySharedExperienceEligibility::TooFarAway });
            }
            let active = match self.party_shared_experience_activity_ticks.get(&id) {
                Some(t) => self.tick.saturating_sub(*t) <= rules.activity_window_ticks,
                None => false,
            };
            if !active {
                proof {
                    assert(participant_failure(self@, rules, leader_id, minimum, id)
                        == Some(PartySharedExperienceEligibility::MemberInactive));
                    assert(first_failure(self@, rules, leader_id, minimum, ps, c as int)
                        == PartySharedExperienceEligibility::MemberInactive);
                }
                return Ok(PartySharedExperienceState { requested: true,
                    eligibility: PartySharedExperienceEligibility::MemberInactive });
            }
            proof {
                assert(participant_failure(self@, rules, leader_id, minimum, id) is None);
            }
            c = c + 1;
        }
        Ok(PartySharedExperienceState { requested: true, eligibility: PartySharedExperienceEligibility::Eligible })
    }

    /// The ascending recipients of shared experience when the player's party is eligible.
    pub fn party_shared_experience_recipients(&self, player_id: u64, rules: PartySharedExperienceRules)
        -> (r: Result<Option<Vec<u64>>, CoreError>)
        ensures
            !self@.players.contains_key(player_id) ==> r == Err::<Option<Vec<u64>>, CoreError>(CoreError::UnknownPlayer(player_id)),
            self@.players.contains_key(player_id) ==> match party_leader_of(self@, player_id) {
                None => r == Ok::<Option<Vec<u64>>, CoreError>(None),
                Some(l) => match shared_experience_state(self@, l, rules) {
                    Err(e) => r == Err::<Option<Vec<u64>>, CoreError>(e),
                    Ok(state) => if state.eligibility != PartySharedExperienceEligibility::Eligible {
                        r == Ok::<Option<Vec<u64>>, CoreError>(None)
                    } else {
                        r is Ok && r->Ok_0 is Some && r->Ok_0->0@ == crate::keys::sorted_ids(
                            members_of(self@.party_memberships, l).insert(l))
                    },
                },
            },
    {
        let leader = self.player_party_leader(player_id)?;
        let leader_id = match leader {
            None => { return Ok(None); },
            Some(l) => l,
        };
        let state = self.party_shared_experience_state(leader_id, rules)?;
        if state.eligibility != PartySharedExperienceEligibility::Eligible {
            return Ok(None);
        }
        let members = self.party_member_ids(leader_id);
        let mut set: BTreeSet<u64> = BTreeSet::new();
        let mut i: usize = 0;
        while i < members.len()
            invariant
                i <= members@.len(),
                set@ == members@.take(i as int).to_set(),
            decreases members.len() - i,
        {
            let k = members[i];
            set.insert(k);
            proof {
                assert(members@.take(i + 1) =~= members@.take(i as int).push(k));
                members@.take(i as int).lemma_push_to_set_commute(k);
            }
            i = i + 1;
        }
        set.insert(leader_id);
        let out = set_keys(&set);
        proof {
            assert(members@.take(members@.len() as int) =~= members@);
            assert(set@ =~= members_of(self@.party_memberships, leader_id).insert(leader_id));
            crate::keys::lemma_sorted_ids(out@, members_of(self@.party_memberships, leader_id).insert(leader_id));
        }
        Ok(Some(out))
    }

    /// The relation an observer displays for one target.
    fn party_display_relation(&self, observer_id: u64, target_id: u64) -> (r: Result<PartyDisplayRelation, CoreError>)
        ensures
            !self@.players.contains_key(observer_id) ==> r == Err::<PartyDisplayRelation, CoreError>(CoreError::UnknownPlayer(observer_id)),
            self@.players.contains_key(observer_id) && !self@.players.contains_key(target_id)
                ==> r == Err::<PartyDisplayRelation, CoreError>(CoreError::UnknownPlayer(target_id)),
            self@.players.contains_key(observer_id) && self@.players.contains_key(target_id)
                ==> r == Ok::<PartyDisplayRelation, CoreError>(display_relation(self@, observer_id, target_id)),
    {
        self.ensure_party_player_exists(observer_id)?;
        self.ensure_party_player_exists(target_id)?;
        let observer_leader = self.player_party_leader(observer_id)?;
        let target_leader = self.player_party_leader(target_id)?;
        if let Some(leader_id) = observer_leader {
            if target_id == leader_id {
                return Ok(PartyDisplayRelation::Leader);
            }
            if target_leader == Some(leader_id) {
                return Ok(PartyDisplayRelation::Member);
            }
            let invited_to = match self.party_invitations.get(&target_id) {
                Some(leaders) => leaders.contains(&leader_id),
                None => false,
            };
            if invited_to {
                return Ok(PartyDisplayRelation::InvitationToLeader);
            }
        }
        let invited_from = match self.party_invitations.get(&observer_id) {
            Some(leaders) => leaders.contains(&target_id),
            None => false,
        };
        if invited_from {
            Ok(PartyDisplayRelation::InvitationFromLeader)
        } else {
            Ok(PartyDisplayRelation::Unrelated)
        }
    }

    /// The relation this observer displays for every registered player, by ascending player.
    pub fn party_display_relations(&self, observer_id: u64) -> (r: Result<Vec<(u64, PartyDisplayRelation)>, CoreError>)
        ensures
            !self@.players.contains_key(observer_id) ==> r == Err::<Vec<(u64, PartyDisplayRelation)>, CoreError>(CoreError::UnknownPlayer(observer_id)),
            self@.players.contains_key(observer_id) ==> r is Ok && {
                let v = r->Ok_0@;
                &&& v.len() == self@.players.dom().len()
                &&& forall|i: int| 0 <= i < v.len() ==> self@.players.contains_key((#[trigger] v[i]).0)
                    && v[i].1 == display_relation(self@, observer_id, v[i].0)
                &&& forall|i: int, j: int| 0 <= i < j < v.len() ==> v[i].0 < v[j].0
            },
    {
        self.ensure_party_player_exists(observer_id)?;
        let ids = map_keys(&self.players);
        let mut out: Vec<(u64, PartyDisplayRelation)> = Vec::new();
        let mut i: usize = 0;
        while i < ids.len()
            invariant
                i <= ids@.len(),
                out@.len() == i,
                strictly_increasing(ids@),
                self@.players.contains_key(observer_id),
                forall|j: int| 0 <= j < ids@.len() ==> self@.players.contains_key(#[trigger] ids@[j]),
                forall|j: int| 0 <= j < i ==> (#[trigger] out@[j]).0 == ids@[j]
                    && out@[j].1 == display_relation(self@, observer_id, ids@[j]),
            decreases ids.len() - i,
        {
            let target = ids[i];
            let relation = self.party_display_relation(observer_id, target)?;
            out.push((target, relation));
            i = i + 1;
        }
        proof { assert(ids@.len() == self@.players.dom().len()); }
        Ok(out)
    }
}


/// A participant that shares experience: registered, at least `minimum` in level, within the
/// range and floor delta of the leader, and active within the activity window.
pub open spec fn shares_experience(m: WorldModel, rules: PartySharedExperienceRules, leader: u64, minimum: u32, p: u64)
    -> bool {
    &&& m.players.contains_key(p)
    &&& m.players[p].level >= minimum
    &&& crate::geometry::chebyshev(m.players[p].position, m.players[leader].position) <= rules.maximum_range
    &&& diff(m.players[p].position.z as int, m.players[leader].position.z as int) <= rules.maximum_floor_delta
    &&& m.shared_activity.contains_key(p)
    &&& (if m.tick >= m.shared_activity[p] { m.tick - m.shared_activity[p] } else { 0 }) <= rules.activity_window_ticks
}

/// A finite identifier set has an ascending listing.
proof fn lemma_sorted_ids_list(s: Set<u64>)
    requires
        s.finite(),
    ensures
        strictly_increasing(crate::keys::sorted_ids(s)),
        crate::keys::sorted_ids(s).to_set() == s,
    decreases s.len(),
{
    if s =~= Set::<u64>::empty() {
        let q = Seq::<u64>::empty();
        assert(q.to_set() =~= s);
        crate::keys::lemma_sorted_ids(q, s);
    } else {
        lemma_least_exists(s);
        let x = choose|x: u64| is_least(s, x);
        let r = s.remove(x);
        lemma_sorted_ids_list(r);
        let q0 = crate::keys::sorted_ids(r);
        let q = seq![x] + q0;
        assert forall|i: int, j: int| 0 <= i < j < q.len() implies q[i] < q[j] by {
            assert(q[j] == q0[j - 1]);
            assert(q0.to_set().contains(q0[j - 1]));
            if i > 0 {
                assert(q[i] == q0[i - 1]);
            }
        }
        assert(q.to_set() =~= s) by {
            assert forall|y: u64| q.to_set().contains(y) <==> s.contains(y) by {
                if s.contains(y) {
                    if y == x {
                        assert(q[0] == y);
                    } else {
                        assert(r.contains(y));
                        assert(q0.to_set().contains(y));
                        let k = choose|k: int| 0 <= k < q0.len() && q0[k] == y;
                        assert(q[k + 1] == y);
                    }
                    assert(q.contains(y));
                }
                if q.to_set().contains(y) {
                    assert(q.contains(y));
                    let k = choose|k: int| 0 <= k < q.len() && q[k] == y;
                    if k > 0 {
                        assert(q0[k - 1] == y);
                        assert(q0.contains(y));
                        assert(q0.to_set().contains(y));
                    } else {
                        assert(q[0] == x);
                    }
                }
            }
        }
        crate::keys::lemma_sorted_ids(q, s);
    }
}

/// The eligibility from position `i` on is decided only when some participant from there fails.
proof fn lemma_first_failure_eligible(m: WorldModel, rules: PartySharedExperienceRules, leader: u64, minimum: u32,
    ps: Seq<u64>, i: int)
    requires
        0 <= i <= ps.len(),
    ensures
        (first_failure(m, rules, leader, minimum, ps, i) == PartySharedExperienceEligibility::Eligible) <==>
            (forall|j: int| i <= j < ps.len() ==> participant_failure(m, rules, leader, minimum, #[trigger] ps[j]) is None),
    decreases ps.len() - i,
{
    if i < ps.len() {
        lemma_first_failure_eligible(m, rules, leader, minimum, ps, i + 1);
    }
}

/// The highest level bounds every registered listed participant, and is the level of one of them
/// or zero.
proof fn lemma_highest_level(m: WorldModel, ps: Seq<u64>)
    ensures
        forall|i: int| 0 <= i < ps.len() && m.players.contains_key(#[trigger] ps[i]) ==> m.players[ps[i]].level
            <= highest_level(m, ps),
        highest_level(m, ps) == 0 || exists|i: int| 0 <= i < ps.len() && m.players.contains_key(#[trigger] ps[i])
            && m.players[ps[i]].level == highest_level(m, ps),
    decreases ps.len(),
{
    if ps.len() > 0 {
        let rest = ps.drop_last();
        lemma_highest_level(m, rest);
        assert forall|i: int| 0 <= i < ps.len() && m.players.contains_key(#[trigger] ps[i]) implies m.players[ps[i]].level
            <= highest_level(m, ps) by {
            if i < ps.len() - 1 {
                assert(ps[i] == rest[i]);
            }
        }
        if highest_level(m, ps) != 0 && highest_level(m, ps) == highest_level(m, rest) {
            let i = choose|i: int| 0 <= i < rest.len() && m.players.contains_key(#[trigger] rest[i])
                && m.players[rest[i]].level == highest_level(m, rest);
            assert(ps[i] == rest[i]);
        }
    }
}

/// Shared experience is eligible exactly when the leader requested it, the party has members,
/// and every participant (the leader and its members) is registered, reaches two thirds of the
/// highest participant level (rounded up), stands within the range and floor delta of the
/// leader, and was active within the activity window.
pub proof fn law_shared_experience_eligibility(m: WorldModel, leader: u64, rules: PartySharedExperienceRules)
    requires
        m.players.contains_key(leader),
        m.party_leaders.contains(leader),
        m.party_memberships.dom().finite(),
    ensures
        ({
            let members = members_of(m.party_memberships, leader);
            let top = highest_level(m, participants(m, leader));
            let s = shared_experience_state(m, leader, rules);
            &&& s is Ok
            &&& s->Ok_0.requested == m.shared_requested.contains(leader)
            &&& forall|p: u64| (p == leader || members.contains(p)) && #[trigger] m.players.contains_key(p)
                ==> m.players[p].level <= top
            &&& exists|p: u64| (p == leader || members.contains(p)) && #[trigger] m.players.contains_key(p)
                && m.players[p].level == top
            &&& (s->Ok_0.eligibility == PartySharedExperienceEligibility::Eligible) <==> (m.shared_requested.contains(leader)
                && members != Set::<u64>::empty() && forall|p: u64| (p == leader || members.contains(p))
                ==> #[trigger] shares_experience(m, rules, leader, minimum_shared_level(top), p))
        }),
{
    let members = members_of(m.party_memberships, leader);
    let ps = participants(m, leader);
    let top = highest_level(m, ps);
    let minimum = minimum_shared_level(top);
    assert(members.finite()) by {
        assert(members.subset_of(m.party_memberships.dom()));
        vstd::set_lib::lemma_len_subset(members, m.party_memberships.dom());
    }
    lemma_sorted_ids_list(members);
    let q = crate::keys::sorted_ids(members);
    assert forall|p: u64| ps.contains(p) <==> (p == leader || members.contains(p)) by {
        if members.contains(p) {
            assert(q.to_set().contains(p));
            let k = choose|k: int| 0 <= k < q.len() && q[k] == p;
            assert(ps[k + 1] == p);
        }
        if ps.contains(p) {
            let k = choose|k: int| 0 <= k < ps.len() && ps[k] == p;
            if k > 0 {
                assert(q[k - 1] == p);
                assert(q.to_set().contains(p));
            } else {
                assert(ps[0] == leader);
            }
        }
    }
    lemma_highest_level(m, ps);
    assert(ps[0] == leader);
    assert forall|p: u64| (p == leader || members.contains(p)) && #[trigger] m.players.contains_key(p)
        implies m.players[p].level <= top by {
        assert(ps.contains(p));
    }
    assert(m.players[leader].level <= top);
    if top == 0 {
        assert(m.players[leader].level == top);
    } else {
        let i = choose|i: int| 0 <= i < ps.len() && m.players.contains_key(#[trigger] ps[i])
            && m.players[ps[i]].level == top;
        assert(ps.contains(ps[i]));
    }
    assert forall|p: u64| participant_failure(m, rules, leader, minimum, p) is None
        <==> #[trigger] shares_experience(m, rules, leader, minimum, p) by {}
    if m.shared_requested.contains(leader) && members != Set::<u64>::empty() {
        lemma_first_failure_eligible(m, rules, leader, minimum, ps, 0);
        if forall|p: u64| (p == leader || members.contains(p)) ==> #[trigger] shares_experience(m, rules, leader, minimum, p) {
            assert forall|j: int| 0 <= j < ps.len() implies participant_failure(m, rules, leader, minimum, #[trigger] ps[j])
                is None by {
                let p = ps[j];
                assert(ps.contains(p));
                assert(p == leader || members.contains(p));
                assert(shares_experience(m, rules, leader, minimum, p));
            }
        }
        if first_failure(m, rules, leader, minimum, ps, 0) == PartySharedExperienceEligibility::Eligible {
            assert forall|p: u64| (p == leader || members.contains(p)) implies #[trigger] shares_experience(m, rules, leader,
                minimum, p) by {
                assert(ps.contains(p));
                let k = choose|k: int| 0 <= k < ps.len() && ps[k] == p;
                assert(participant_failure(m, rules, leader, minimum, ps[k]) is None);
            }
        }
    }
}


/// A party listed by `party_snapshots` is restored by `restore_party_snapshot` onto a world
/// without parties in which its leader and members are registered, and the restored party has
/// the same leader and the same members.
pub proof fn law_party_snapshot_restores(m: WorldModel, m2: WorldModel, leader: u64)
    requires
        party_consistent(m),
        m.party_leaders.contains(leader),
        m.party_memberships.dom().finite(),
        m2.party_leaders == Set::<u64>::empty(),
        m2.party_memberships == Map::<u64, u64>::empty(),
        m2.players.contains_key(leader),
        forall|p: u64| #[trigger] members_of(m.party_memberships, leader).contains(p) ==> m2.players.contains_key(p),
    ensures
        ({
            let listed = crate::keys::sorted_ids(members_of(m.party_memberships, leader));
            let w = party_restored(m2, leader, listed);
            &&& party_restore_accepted(m2, leader, listed)
            &&& w.party_leaders.contains(leader)
            &&& members_of(w.party_memberships, leader) == members_of(m.party_memberships, leader)
        }),
{
    let members = members_of(m.party_memberships, leader);
    assert(members.finite()) by {
        vstd::set_lib::lemma_len_subset(members, m.party_memberships.dom());
    }
    lemma_sorted_ids_list(members);
    let q = crate::keys::sorted_ids(members);
    assert forall|i: int, j: int| 0 <= i < j < q.len() implies q[i] != q[j] by {
        assert(q[i] < q[j]);
    }
    assert forall|i: int| 0 <= i < q.len() implies members.contains(#[trigger] q[i]) by {
        assert(q.to_set().contains(q[i]));
    }
    assert(!q.contains(leader)) by {
        if q.contains(leader) {
            let i = choose|i: int| 0 <= i < q.len() && q[i] == leader;
            assert(members.contains(q[i]));
        }
    }
    let w = party_restored(m2, leader, q);
    assert(members_of(w.party_memberships, leader) =~= members) by {
        assert forall|p: u64| members_of(w.party_memberships, leader).contains(p) <==> members.contains(p) by {
            if members.contains(p) {
                assert(q.to_set().contains(p));
            }
        }
    }
}


/// The minimum shared level is two thirds of the highest level, rounded up: the least level
/// whose triple reaches twice the highest (for highest levels whose doubling fits in `u32`).
pub proof fn law_minimum_shared_level_is_two_thirds(highest: u32)
    requires
        2 * highest + 2 <= u32::MAX,
    ensures
        3 * minimum_shared_level(highest) >= 2 * highest,
        3 * (minimum_shared_level(highest) - 1) < 2 * highest,
{
}

} // verus!
