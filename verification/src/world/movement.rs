//! Player movement: adjacent steps, cardinal steps, teleports, one follow pass and the viewport.

use vstd::prelude::*;
use std::collections::BTreeSet;
use crate::error::CoreError;
use crate::geometry::{CardinalDirection, Position, position_key, spec_adjacent, spec_step, abs_diff_u16, diff, lemma_step_is_adjacent_and_reversible};
use crate::progression::Player;
use crate::map::{WorldMap, WorldMapView, walkable, protection_zone};
use crate::keys::{map_keys, strictly_increasing};
use crate::world::{WorldState, WorldModel, bumped};
use crate::world::lifecycle::dead_state;

verus! {

broadcast use {vstd::std_specs::btree::group_btree_axioms, vstd::laws_cmp::group_laws_cmp};

#[derive(Debug, Clone, PartialEq, Eq)]
pub struct EmptyWorldManifest {
    pub identifier: String,
    pub viewport_radius_x: u8,
    pub viewport_radius_y: u8,
}

impl Default for EmptyWorldManifest {
    fn default() -> (r: EmptyWorldManifest)
        ensures
            r.viewport_radius_x == 8,
            r.viewport_radius_y == 6,
    {
        EmptyWorldManifest { identifier: "fe.empty-world.v1".to_owned(), viewport_radius_x: 8, viewport_radius_y: 6 }
    }
}

#[derive(Debug, Clone, PartialEq, Eq)]
pub struct EmptyWorldViewport {
    pub tick: u64,
    pub center: Position,
    pub manifest: EmptyWorldManifest,
}

/// Some registered player other than `id` stands on `p`.
pub open spec fn other_player_at(players: Map<u64, Player>, id: u64, p: Position) -> bool {
    exists|k: u64| players.contains_key(k) && k != id && #[trigger] players[k].position == p
}

/// The world after player `id` moves to `to`.
pub open spec fn moved_to(m: WorldModel, id: u64, to: Position) -> WorldModel {
    WorldModel {
        players: m.players.insert(id, Player { position: to, ..m.players[id] }),
        revision: bumped(m.revision),
        ..m
    }
}

/// The refusal of an adjacent step, if any.
pub open spec fn step_error(m: WorldModel, id: u64, to: Position) -> Option<CoreError> {
    if dead_state(m, id) is Err {
        Some(CoreError::UnknownPlayer(id))
    } else if dead_state(m, id) == Ok::<bool, CoreError>(true) {
        Some(CoreError::PlayerIsDead(id))
    } else if m.static_occupied.contains(position_key(to)) {
        Some(CoreError::StaticCreatureOccupiesPosition(to))
    } else if !m.players.contains_key(id) {
        Some(CoreError::UnknownPlayer(id))
    } else if !spec_adjacent(m.players[id].position, to) {
        Some(CoreError::InvalidMovement { from: m.players[id].position, to })
    } else {
        None
    }
}

/// The two cardinal directions that reduce the distance from `s` to `q`, the longer axis first
/// (the horizontal one on a tie); `None` where that axis is already aligned.
pub open spec fn follow_directions(s: Position, q: Position) -> (Option<CardinalDirection>, Option<CardinalDirection>) {
    let x = if q.x < s.x { Some(CardinalDirection::West) } else if q.x > s.x { Some(CardinalDirection::East) } else { None };
    let y = if q.y < s.y { Some(CardinalDirection::North) } else if q.y > s.y { Some(CardinalDirection::South) } else { None };
    if diff(s.x as int, q.x as int) >= diff(s.y as int, q.y as int) { (x, y) } else { (y, x) }
}

/// The destination of a follow step in one direction, when it is walkable and free.
pub open spec fn follow_try(m: WorldModel, wm: WorldMapView, p: u64, s: Position, dir: Option<CardinalDirection>)
    -> Result<Option<Position>, CoreError> {
    match dir {
        None => Ok(None),
        Some(d) => match spec_step(s, d) {
            None => Err(CoreError::MapBoundary { position: s }),
            Some(dest) => if walkable(wm, dest) && !m.static_occupied.contains(position_key(dest))
                && !other_player_at(m.players, p, dest) {
                Ok(Some(dest))
            } else {
                Ok(None)
            },
        },
    }
}

/// Where player `p` steps in a follow pass over world `m`, if anywhere.
pub open spec fn follow_choice(m: WorldModel, wm: WorldMapView, p: u64) -> Result<Option<Position>, CoreError> {
    if !m.interactions.contains_key(p) || m.interactions[p].follow_player_id is None || !m.players.contains_key(p) {
        Ok(None)
    } else {
        let t = m.interactions[p].follow_player_id->0;
        if !m.players.contains_key(t) {
            Ok(None)
        } else {
            match dead_state(m, p) {
                Err(e) => Err(e),
                Ok(true) => Ok(None),
                Ok(false) => match dead_state(m, t) {
                    Err(e) => Err(e),
                    Ok(true) => Ok(None),
                    Ok(false) => {
                        let s = m.players[p].position;
                        let q = m.players[t].position;
                        if spec_adjacent(s, q) || s.z != q.z {
                            Ok(None)
                        } else {
                            let dirs = follow_directions(s, q);
                            match follow_try(m, wm, p, s, dirs.0) {
                                Err(e) => Err(e),
                                Ok(Some(dest)) => Ok(Some(dest)),
                                Ok(None) => follow_try(m, wm, p, s, dirs.1),
                            }
                        }
                    },
                },
            }
        }
    }
}

/// A follow pass over the players `ids` in order: the world after it and the players that moved,
/// or the first refusal with the world as it stood then.
pub open spec fn follow_pass(m: WorldModel, wm: WorldMapView, ids: Seq<u64>)
    -> Result<(WorldModel, Set<u64>), (CoreError, WorldModel)>
    decreases ids.len(),
{
    if ids.len() == 0 {
        Ok((m, Set::empty()))
    } else {
        match follow_pass(m, wm, ids.drop_last()) {
            Err(x) => Err(x),
            Ok((m1, moved)) => match follow_choice(m1, wm, ids.last()) {
                Err(e) => Err((e, m1)),
                Ok(None) => Ok((m1, moved)),
                Ok(Some(dest)) => Ok((moved_to(m1, ids.last(), dest), moved.insert(ids.last()))),
            },
        }
    }
}

/// Once a follow pass is refused, every longer pass is refused the same way.
proof fn lemma_follow_pass_refusal_sticks(m: WorldModel, wm: WorldMapView, ids: Seq<u64>, k: int, n: int)
    requires
        0 <= k <= n <= ids.len(),
        follow_pass(m, wm, ids.take(k)) is Err,
    ensures
        follow_pass(m, wm, ids.take(n)) == follow_pass(m, wm, ids.take(k)),
    decreases n - k,
{
    if n > k {
        lemma_follow_pass_refusal_sticks(m, wm, ids, k, n - 1);
        assert(ids.take(n).drop_last() =~= ids.take(n - 1));
    }
}

/// A step toward an aligned direction shortens the distance along that axis by one and keeps the
/// other axis.
proof fn lemma_follow_try_reduces(m: WorldModel, wm: WorldMapView, p: u64, s: Position, q: Position,
    dir: Option<CardinalDirection>)
    requires
        follow_try(m, wm, p, s, dir) matches Ok(Some(_)),
        dir == follow_directions(s, q).0 || dir == follow_directions(s, q).1,
    ensures
        ({
            let dest = follow_try(m, wm, p, s, dir)->Ok_0->0;
            &&& spec_adjacent(s, dest)
            &&& diff(dest.x as int, q.x as int) + diff(dest.y as int, q.y as int)
                < diff(s.x as int, q.x as int) + diff(s.y as int, q.y as int)
        }),
{
    lemma_step_is_adjacent_and_reversible(s, dir->0);
}

/// A player that moves in a follow pass takes one step onto an adjacent tile of its floor that is
/// closer to the player it follows.
pub proof fn law_follow_step_reduces_distance(m: WorldModel, wm: WorldMapView, p: u64)
    requires
        follow_choice(m, wm, p) matches Ok(Some(_)),
    ensures
        ({
            let dest = follow_choice(m, wm, p)->Ok_0->0;
            let s = m.players[p].position;
            let q = m.players[m.interactions[p].follow_player_id->0].position;
            &&& spec_adjacent(s, dest)
            &&& diff(dest.x as int, q.x as int) + diff(dest.y as int, q.y as int)
                < diff(s.x as int, q.x as int) + diff(s.y as int, q.y as int)
        }),
{
    let s = m.players[p].position;
    let q = m.players[m.interactions[p].follow_player_id->0].position;
    let dirs = follow_directions(s, q);
    if follow_try(m, wm, p, s, dirs.0) matches Ok(Some(_)) {
        lemma_follow_try_reduces(m, wm, p, s, q, dirs.0);
    } else {
        lemma_follow_try_reduces(m, wm, p, s, q, dirs.1);
    }
}

impl WorldState {
    /// True when either of two players stands in a protection zone.
    pub fn either_player_in_protection_zone(&self, world_map: &WorldMap, attacker: u64, defender: u64) -> (r: bool)
        ensures
            r == ((self@.players.contains_key(attacker) && protection_zone(world_map.view(), self@.players[attacker].position))
                || (self@.players.contains_key(defender) && protection_zone(world_map.view(), self@.players[defender].position))),
    {
        let a = match self.players.get(&attacker) {
            Some(p) => world_map.is_protection_zone(p.position),
            None => false,
        };
        let d = match self.players.get(&defender) {
            Some(p) => world_map.is_protection_zone(p.position),
            None => false,
        };
        a || d
    }

    /// Moves a living player one tile to an adjacent position not held by an active static creature.
    pub fn move_player(&mut self, id: u64, destination: Position) -> (r: Result<(), CoreError>)
        ensures
            match step_error(old(self)@, id, destination) {
                Some(e) => r == Err::<(), CoreError>(e) && final(self)@ == old(self)@,
                None => r is Ok && final(self)@ == moved_to(old(self)@, id, destination),
            },
    {
        let dead = self.player_respawn_state(id)?.dead;
        if dead {
            return Err(CoreError::PlayerIsDead(id));
        }
        if self.is_static_creature_occupied(destination) {
            return Err(CoreError::StaticCreatureOccupiesPosition(destination));
        }
        let mut player = match self.players.get(&id) {
            Some(p) => p.duplicate(),
            None => { return Err(CoreError::UnknownPlayer(id)); },
        };
        if !player.position.is_adjacent_to(destination) {
            return Err(CoreError::InvalidMovement { from: player.position, to: destination });
        }
        player.position = destination;
        self.players.insert(id, player);
        self.mark_changed();
        Ok(())
    }

    /// One cardinal step; returns the source and destination positions.
    pub fn move_player_cardinal(&mut self, id: u64, direction: CardinalDirection)
        -> (r: Result<(Position, Position), CoreError>)
        ensures
            !old(self)@.players.contains_key(id) ==> r == Err::<(Position, Position), CoreError>(CoreError::UnknownPlayer(id))
                && final(self)@ == old(self)@,
            old(self)@.players.contains_key(id) ==> {
                let from = old(self)@.players[id].position;
                match spec_step(from, direction) {
                    None => r == Err::<(Position, Position), CoreError>(CoreError::MapBoundary { position: from })
                        && final(self)@ == old(self)@,
                    Some(to) => match step_error(old(self)@, id, to) {
                        Some(e) => r == Err::<(Position, Position), CoreError>(e) && final(self)@ == old(self)@,
                        None => r == Ok::<(Position, Position), CoreError>((from, to))
                            && final(self)@ == moved_to(old(self)@, id, to),
                    },
                }
            },
    {
        let from = match self.players.get(&id) {
            Some(p) => p.position,
            None => { return Err(CoreError::UnknownPlayer(id)); },
        };
        let to = from.step(direction)?;
        self.move_player(id, to)?;
        Ok((from, to))
    }

    /// Moves a living player to a server-chosen destination that no other player or active
    /// static creature holds.
    pub fn teleport_player(&mut self, id: u64, destination: Position) -> (r: Result<(Position, Position), CoreError>)
        ensures
            dead_state(old(self)@, id) is Err ==> r == Err::<(Position, Position), CoreError>(CoreError::UnknownPlayer(id)),
            dead_state(old(self)@, id) == Ok::<bool, CoreError>(true)
                ==> r == Err::<(Position, Position), CoreError>(CoreError::PlayerIsDead(id)),
            dead_state(old(self)@, id) == Ok::<bool, CoreError>(false) ==> {
                if old(self)@.static_occupied.contains(position_key(destination)) {
                    r == Err::<(Position, Position), CoreError>(CoreError::StaticCreatureOccupiesPosition(destination))
                } else if other_player_at(old(self)@.players, id, destination) {
                    r == Err::<(Position, Position), CoreError>(CoreError::PlayerOccupiesPosition(destination))
                } else if !old(self)@.players.contains_key(id) {
                    r == Err::<(Position, Position), CoreError>(CoreError::UnknownPlayer(id))
                } else {
                    r == Ok::<(Position, Position), CoreError>((old(self)@.players[id].position, destination))
                        && final(self)@ == moved_to(old(self)@, id, destination)
                }
            },
            r is Err ==> final(self)@ == old(self)@,
    {
        let dead = self.player_respawn_state(id)?.dead;
        if dead {
            return Err(CoreError::PlayerIsDead(id));
        }
        if self.is_static_creature_occupied(destination) {
            return Err(CoreError::StaticCreatureOccupiesPosition(destination));
        }
        if self.other_player_occupies(id, destination) {
            return Err(CoreError::PlayerOccupiesPosition(destination));
        }
        let mut player = match self.players.get(&id) {
            Some(p) => p.duplicate(),
            None => { return Err(CoreError::UnknownPlayer(id)); },
        };
        let source = player.position;
        player.position = destination;
        self.players.insert(id, player);
        self.mark_changed();
        Ok((source, destination))
    }

    /// True when a registered player other than `id` stands on `position`.
    pub(crate) fn other_player_occupies(&self, id: u64, position: Position) -> (r: bool)
        ensures
            r == other_player_at(self@.players, id, position),
    {
        let ids = map_keys(&self.players);
        let mut i: usize = 0;
        while i < ids.len()
            invariant
                i <= ids@.len(),
                forall|j: int| 0 <= j < ids@.len() ==> self@.players.contains_key(#[trigger] ids@[j]),
                forall|k: u64| #[trigger] self@.players.contains_key(k) ==> ids@.contains(k),
                forall|j: int| 0 <= j < i ==> ids@[j] == id || self@.players[#[trigger] ids@[j]].position != position,
            decreases ids.len() - i,
        {
            let k = ids[i];
            if k != id && self.players.get(&k).unwrap().position == position {
                return true;
            }
            i = i + 1;
        }
        proof {
            assert forall|k: u64| self@.players.contains_key(k) && k != id implies
                #[trigger] self@.players[k].position != position by {
                let j = choose|j: int| 0 <= j < ids@.len() && ids@[j] == k;
            }
        }
        false
    }

    /// The empty-world viewport centred on a player.
    pub fn empty_world_viewport(&self, id: u64, manifest: EmptyWorldManifest) -> (r: Result<EmptyWorldViewport, CoreError>)
        ensures
            !self@.players.contains_key(id) ==> r == Err::<EmptyWorldViewport, CoreError>(CoreError::UnknownPlayer(id)),
            self@.players.contains_key(id) ==> r == Ok::<EmptyWorldViewport, CoreError>(EmptyWorldViewport {
                tick: self@.tick,
                center: self@.players[id].position,
                manifest,
            }),
    {
        let center = match self.players.get(&id) {
            Some(p) => p.position,
            None => { return Err(CoreError::UnknownPlayer(id)); },
        };
        Ok(EmptyWorldViewport { tick: self.tick, center, manifest })
    }

    /// One follow pass: each living follower takes at most one cardinal step that reduces its
    /// distance to a living followed player on its floor, preferring the longer axis, onto a
    /// walkable tile that no creature or other player holds. Returns the players that moved.
    pub fn follow_player_targets_once(&mut self, world_map: &WorldMap) -> (r: Result<BTreeSet<u64>, CoreError>)
        ensures
            match follow_pass(old(self)@, world_map.view(), crate::keys::sorted_ids(old(self)@.players.dom())) {
                Ok((f, moved)) => r is Ok && r->Ok_0@ == moved && final(self)@ == f,
                Err((e, f)) => r == Err::<BTreeSet<u64>, CoreError>(e) && final(self)@ == f,
            },
    {
        let ids = map_keys(&self.players);
        proof {
            crate::keys::lemma_sorted_ids(ids@, old(self)@.players.dom());
            assert(ids@.take(0) =~= Seq::<u64>::empty());
        }
        let ghost wm = world_map.view();
        let mut moved: BTreeSet<u64> = BTreeSet::new();
        let mut i: usize = 0;
        while i < ids.len()
            invariant
                i <= ids@.len(),
                wm == world_map.view(),
                ids@ == crate::keys::sorted_ids(old(self)@.players.dom()),
                follow_pass(old(self)@, wm, ids@.take(i as int)) == Ok::<(WorldModel, Set<u64>), (CoreError, WorldModel)>((self@, moved@)),
            decreases ids.len() - i,
        {
            let player_id = ids[i];
            proof {
                assert(ids@.take(i + 1).drop_last() =~= ids@.take(i as int));
                assert(ids@.take(i + 1).last() == player_id);
            }
            let choice = self.follow_choice_of(world_map, player_id);
            i = i + 1;
            match choice {
                Err(e) => {
                    proof {
                        assert(follow_pass(old(self)@, wm, ids@.take(i as int))
                            == Err::<(WorldModel, Set<u64>), (CoreError, WorldModel)>((e, self@)));
                        lemma_follow_pass_refusal_sticks(old(self)@, wm, ids@, i as int, ids@.len() as int);
                        assert(ids@.take(ids@.len() as int) =~= ids@);
                    }
                    return Err(e);
                },
                Ok(None) => {},
                Ok(Some(destination)) => {
                    self.move_player(player_id, destination).unwrap();
                    moved.insert(player_id);
                },
            }
        }
        proof { assert(ids@.take(ids@.len() as int) =~= ids@); }
        Ok(moved)
    }

    /// Where a player steps in a follow pass, if anywhere.
    fn follow_choice_of(&self, world_map: &WorldMap, player_id: u64) -> (r: Result<Option<Position>, CoreError>)
        ensures
            r == follow_choice(self@, world_map.view(), player_id),
            r matches Ok(Some(dest)) ==> step_error(self@, player_id, dest) is None,
    {
        let target_id = match self.player_interactions.get(&player_id) {
            Some(intent) => match intent.follow_player_id {
                Some(t) => t,
                None => { return Ok(None); },
            },
            None => { return Ok(None); },
        };
        let source = match self.players.get(&player_id) {
            Some(p) => p.position,
            None => { return Ok(None); },
        };
        let target = match self.players.get(&target_id) {
            Some(p) => p.position,
            None => { return Ok(None); },
        };
        if self.player_respawn_state(player_id)?.dead {
            return Ok(None);
        }
        if self.player_respawn_state(target_id)?.dead {
            return Ok(None);
        }
        if source.is_adjacent_to(target) || source.z != target.z {
            return Ok(None);
        }
        let x_distance = abs_diff_u16(source.x, target.x);
        let y_distance = abs_diff_u16(source.y, target.y);
        let x_direction = if target.x < source.x {
            Some(CardinalDirection::West)
        } else if target.x > source.x {
            Some(CardinalDirection::East)
        } else {
            None
        };
        let y_direction = if target.y < source.y {
            Some(CardinalDirection::North)
        } else if target.y > source.y {
            Some(CardinalDirection::South)
        } else {
            None
        };
        let (first, second) = if x_distance >= y_distance { (x_direction, y_direction) } else { (y_direction, x_direction) };
        match self.follow_try_of(world_map, player_id, source, first)? {
            Some(destination) => Ok(Some(destination)),
            None => self.follow_try_of(world_map, player_id, source, second),
        }
    }

    /// The destination of a follow step in one direction, when it is walkable and free.
    fn follow_try_of(&self, world_map: &WorldMap, player_id: u64, source: Position, direction: Option<CardinalDirection>)
        -> (r: Result<Option<Position>, CoreError>)
        ensures
            r == follow_try(self@, world_map.view(), player_id, source, direction),
            r matches Ok(Some(dest)) ==> spec_step(source, direction->0) == Some(dest),
    {
        match direction {
            None => Ok(None),
            Some(d) => {
                let destination = source.step(d)?;
                if world_map.is_walkable(destination) && !self.is_static_creature_occupied(destination)
                    && !self.other_player_occupies(player_id, destination) {
                    Ok(Some(destination))
                } else {
                    Ok(None)
                }
            },
        }
    }
}


/// A tile a follower may step onto: walkable, held by no active static creature and by no other
/// player.
pub open spec fn follow_free(m: WorldModel, wm: WorldMapView, p: u64, dest: Position) -> bool {
    walkable(wm, dest) && !m.static_occupied.contains(position_key(dest)) && !other_player_at(m.players, p, dest)
}

/// The tile one step from `s` toward `q` along the x axis, if `q` lies off that axis.
pub open spec fn x_step_toward(s: Position, q: Position) -> Option<Position> {
    if q.x < s.x { Some(Position { x: (s.x - 1) as u16, ..s }) }
    else if q.x > s.x { Some(Position { x: (s.x + 1) as u16, ..s }) }
    else { None }
}

/// The tile one step from `s` toward `q` along the y axis, if `q` lies off that axis.
pub open spec fn y_step_toward(s: Position, q: Position) -> Option<Position> {
    if q.y < s.y { Some(Position { y: (s.y - 1) as u16, ..s }) }
    else if q.y > s.y { Some(Position { y: (s.y + 1) as u16, ..s }) }
    else { None }
}

/// A living follower of a living player on its floor, not yet next to it, steps toward it along
/// the axis of the larger distance (x on a tie) when that step is free, otherwise along the other
/// axis when that step is free, and otherwise stays.
pub proof fn law_follow_choice(m: WorldModel, wm: WorldMapView, p: u64)
    requires
        m.interactions.contains_key(p),
        m.interactions[p].follow_player_id is Some,
        m.players.contains_key(p),
        m.players.contains_key(m.interactions[p].follow_player_id->0),
        dead_state(m, p) == Ok::<bool, CoreError>(false),
        dead_state(m, m.interactions[p].follow_player_id->0) == Ok::<bool, CoreError>(false),
        m.players[p].position.z == m.players[m.interactions[p].follow_player_id->0].position.z,
        !spec_adjacent(m.players[p].position, m.players[m.interactions[p].follow_player_id->0].position),
    ensures
        ({
            let s = m.players[p].position;
            let q = m.players[m.interactions[p].follow_player_id->0].position;
            let xs = x_step_toward(s, q);
            let ys = y_step_toward(s, q);
            let free_x = xs is Some && follow_free(m, wm, p, xs->0);
            let free_y = ys is Some && follow_free(m, wm, p, ys->0);
            follow_choice(m, wm, p) == Ok::<Option<Position>, CoreError>(
                if diff(s.x as int, q.x as int) >= diff(s.y as int, q.y as int) {
                    if free_x { xs } else if free_y { ys } else { None }
                } else {
                    if free_y { ys } else if free_x { xs } else { None }
                })
        }),
{
    let s = m.players[p].position;
    let q = m.players[m.interactions[p].follow_player_id->0].position;
    let dirs = follow_directions(s, q);
    let xd = if q.x < s.x { Some(CardinalDirection::West) } else if q.x > s.x { Some(CardinalDirection::East) } else { None };
    let yd = if q.y < s.y { Some(CardinalDirection::North) } else if q.y > s.y { Some(CardinalDirection::South) } else { None };
    assert(follow_try(m, wm, p, s, xd) == Ok::<Option<Position>, CoreError>(
        if x_step_toward(s, q) is Some && follow_free(m, wm, p, x_step_toward(s, q)->0) { x_step_toward(s, q) } else { None }));
    assert(follow_try(m, wm, p, s, yd) == Ok::<Option<Position>, CoreError>(
        if y_step_toward(s, q) is Some && follow_free(m, wm, p, y_step_toward(s, q)->0) { y_step_toward(s, q) } else { None }));
}


/// A living, registered player moves exactly onto the tiles one Chebyshev step away on its own
/// floor that no active static creature holds; every other destination is refused.
pub proof fn law_step_is_one_tile(m: WorldModel, id: u64, to: Position)
    requires
        m.players.contains_key(id),
        dead_state(m, id) == Ok::<bool, CoreError>(false),
    ensures
        step_error(m, id, to) is None <==> (to.z == m.players[id].position.z
            && crate::geometry::chebyshev(m.players[id].position, to) == 1
            && !m.static_occupied.contains(position_key(to))),
{
}

} // verus!
