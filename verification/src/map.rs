//! The immutable source map: tiles, top-level items, tile flags, houses, towns and waypoints.

use vstd::prelude::*;
use std::collections::BTreeMap;
use crate::error::CoreError;
use crate::geometry::{Position, position_key, key_position};
use crate::keys::{map_keys_pos, map_keys_u32, key_lt, strictly_increasing_u32, sorted_pos, sorted_u32, lemma_sorted_pos};
use vstd::utf8::encode_utf8;
use crate::text::{is_blank, spec_is_blank, chars_lt, text_lt, lemma_chars_lt_transitive, lemma_chars_lt_total};

verus! {

broadcast use {vstd::std_specs::btree::group_btree_axioms, vstd::laws_cmp::group_laws_cmp};

pub const MAX_WORLD_MAP_TILES: usize = 65_536;
pub const MAX_WORLD_MAP_ITEMS_PER_TILE: usize = 64;
pub const MAX_WORLD_MAP_TOWNS: usize = 8_192;
pub const MAX_WORLD_MAP_WAYPOINTS: usize = 8_192;
/// Classic tile-flag bit that marks a protection zone.
pub const OTBM_TILE_FLAG_PROTECTION_ZONE: u32 = 0x01;

#[derive(Debug, Clone, Copy, PartialEq, Eq, Structural)]
pub struct WorldMapTile {
    pub ground_thing_id: u16,
    pub walkable: bool,
}

/// One item placed on a tile, with its nested children.
#[derive(Debug)]
pub struct WorldMapItem {
    /// The operator-provided server item identifier.
    pub server_id: u16,
    /// The mapped client thing identifier, when known.
    pub client_thing_id: Option<u16>,
    pub count: u8,
    pub action_id: Option<u16>,
    pub unique_id: Option<u16>,
    pub text: Option<String>,
    pub description: Option<String>,
    pub teleport_destination: Option<Position>,
    pub duration: Option<u32>,
    pub charges: Option<u16>,
    pub children: Vec<WorldMapItem>,
}

#[derive(Debug, Clone, PartialEq, Eq)]
pub struct OtbmMapHeader {
    pub version: u32,
    pub width: u16,
    pub height: u16,
    pub item_major_version: u32,
    pub item_minor_version: u32,
    pub description: Option<String>,
    pub spawn_file: Option<String>,
    pub house_file: Option<String>,
}

#[derive(Debug, Clone, PartialEq, Eq)]
pub enum WorldMapSource {
    FeMapV1,
    Otbm(OtbmMapHeader),
}

#[derive(Debug, Clone, PartialEq, Eq)]
pub struct WorldMapTown {
    pub id: u32,
    pub name: String,
    pub temple_position: Position,
}

/// A deterministic, non-cryptographic revision of the complete map content.
#[derive(Debug, Clone, Copy, PartialEq, Eq, PartialOrd, Ord, Hash, Structural)]
pub struct WorldMapSourceRevision(pub u64);

/// A stable identity of one top-level item in one map revision.
#[derive(Debug, Clone, Copy, PartialEq, Eq, PartialOrd, Ord, Structural)]
pub struct WorldMapItemSourceIdentity {
    pub map_revision: WorldMapSourceRevision,
    pub position: Position,
    pub item_index: u8,
}

/// The model of a map.
pub struct WorldMapView {
    pub identifier: Seq<char>,
    pub spawn: Position,
    pub tiles: Map<(u16, u16, u8), WorldMapTile>,
    pub source: WorldMapSource,
    pub tile_items: Map<(u16, u16, u8), Seq<WorldMapItem>>,
    pub tile_flags: Map<(u16, u16, u8), u32>,
    pub house_tiles: Map<(u16, u16, u8), u32>,
    pub towns: Map<u32, WorldMapTown>,
    pub waypoints: Seq<(Seq<char>, Position)>,
}

#[derive(Debug)]
pub struct WorldMap {
    identifier: String,
    spawn: Position,
    tiles: BTreeMap<(u16, u16, u8), WorldMapTile>,
    source: WorldMapSource,
    tile_items: BTreeMap<(u16, u16, u8), Vec<WorldMapItem>>,
    tile_flags: BTreeMap<(u16, u16, u8), u32>,
    house_tiles: BTreeMap<(u16, u16, u8), u32>,
    towns: BTreeMap<u32, WorldMapTown>,
    /// Waypoints in ascending name order; names are unique.
    waypoints: Vec<(String, Position)>,
}

/// The position recorded under a waypoint name, if any.
pub open spec fn waypoint_lookup(w: Seq<(Seq<char>, Position)>, name: Seq<char>) -> Option<Position>
    decreases w.len(),
{
    if w.len() == 0 {
        None
    } else if w.last().0 == name {
        Some(w.last().1)
    } else {
        waypoint_lookup(w.drop_last(), name)
    }
}

/// Waypoint names strictly ascend, as in a name-ordered table.
pub open spec fn names_ascending(w: Seq<(Seq<char>, Position)>) -> bool {
    forall|i: int, j: int| 0 <= i < j < w.len() ==> chars_lt(#[trigger] w[i].0, #[trigger] w[j].0)
}

/// The first index from `i` on whose name does not sort before `name`: where a new name goes.
pub open spec fn insert_slot(w: Seq<(Seq<char>, Position)>, name: Seq<char>, i: int) -> int
    decreases w.len() - i,
{
    if i >= w.len() || i < 0 {
        w.len() as int
    } else if !chars_lt(w[i].0, name) {
        i
    } else {
        insert_slot(w, name, i + 1)
    }
}

/// The tile of a position is walkable.
pub open spec fn walkable(m: WorldMapView, p: Position) -> bool {
    m.tiles.contains_key(position_key(p)) && m.tiles[position_key(p)].walkable
}

/// The tile of a position carries the protection-zone flag.
pub open spec fn protection_zone(m: WorldMapView, p: Position) -> bool {
    m.tile_flags.contains_key(position_key(p)) && (m.tile_flags[position_key(p)] & OTBM_TILE_FLAG_PROTECTION_ZONE) != 0
}

impl View for WorldMap {
    type V = WorldMapView;

    /// The mathematical model of the map.
    closed spec fn view(&self) -> WorldMapView {
        WorldMapView {
            identifier: self.identifier@,
            spawn: self.spawn,
            tiles: self.tiles@,
            source: self.source,
            tile_items: self.tile_items@.map_values(|v: Vec<WorldMapItem>| v@),
            tile_flags: self.tile_flags@,
            house_tiles: self.house_tiles@,
            towns: self.towns@,
            waypoints: self.waypoints@.map_values(|e: (String, Position)| (e.0@, e.1)),
        }
    }
}

impl WorldMap {
    /// Tile-flag bit that marks a protection zone.
    pub const OTBM_TILE_FLAG_PROTECTION_ZONE: u32 = OTBM_TILE_FLAG_PROTECTION_ZONE;

    /// An empty map with an identifier and a spawn position.
    pub fn new(identifier: &str, spawn: Position) -> (r: WorldMap)
        ensures
            r.view() == (WorldMapView {
                identifier: identifier@,
                spawn,
                tiles: Map::empty(),
                source: WorldMapSource::FeMapV1,
                tile_items: Map::empty(),
                tile_flags: Map::empty(),
                house_tiles: Map::empty(),
                towns: Map::empty(),
                waypoints: Seq::empty(),
            }),
    {
        let r = WorldMap {
            identifier: identifier.to_owned(),
            spawn,
            tiles: BTreeMap::new(),
            source: WorldMapSource::FeMapV1,
            tile_items: BTreeMap::new(),
            tile_flags: BTreeMap::new(),
            house_tiles: BTreeMap::new(),
            towns: BTreeMap::new(),
            waypoints: Vec::new(),
        };
        proof {
            assert(r.view().tile_items =~= Map::<(u16, u16, u8), Seq<WorldMapItem>>::empty());
            assert(r.view().waypoints =~= Seq::<(Seq<char>, Position)>::empty());
        }
        r
    }

    pub fn identifier(&self) -> (r: &str)
        ensures
            r@ == self.view().identifier,
    {
        self.identifier.as_str()
    }

    pub fn spawn(&self) -> (r: Position)
        ensures
            r == self.view().spawn,
    {
        self.spawn
    }

    pub fn set_spawn(&mut self, spawn: Position)
        ensures
            final(self).view() == (WorldMapView { spawn, ..old(self).view() }),
    {
        self.spawn = spawn;
    }

    pub fn source(&self) -> (r: &WorldMapSource)
        ensures
            *r == self.view().source,
    {
        &self.source
    }

    pub fn set_source(&mut self, source: WorldMapSource)
        ensures
            final(self).view() == (WorldMapView { source, ..old(self).view() }),
    {
        self.source = source;
    }

    pub fn tile_count(&self) -> (r: usize)
        ensures
            r == self.view().tiles.dom().len(),
    {
        self.tiles.len()
    }

    /// Every tile with its position, in ascending position order.
    pub fn tiles(&self) -> (r: Vec<(Position, WorldMapTile)>)
        ensures
            r@.len() == self.view().tiles.dom().len(),
            forall|i: int| 0 <= i < r@.len() ==> self.view().tiles.contains_key(position_key((#[trigger] r@[i]).0))
                && r@[i].1 == self.view().tiles[position_key(r@[i].0)],
            forall|i: int, j: int| 0 <= i < j < r@.len() ==> key_lt(position_key(r@[i].0), position_key(r@[j].0)),
            forall|k: (u16, u16, u8)| #[trigger] self.view().tiles.contains_key(k)
                ==> exists|i: int| 0 <= i < r@.len() && position_key(r@[i].0) == k,
    {
        let keys = map_keys_pos(&self.tiles);
        let mut out: Vec<(Position, WorldMapTile)> = Vec::new();
        let mut i: usize = 0;
        while i < keys.len()
            invariant
                i <= keys@.len(),
                out@.len() == i,
                forall|j: int| 0 <= j < keys@.len() ==> self.tiles@.contains_key(#[trigger] keys@[j]),
                forall|j: int| 0 <= j < i ==> position_key((#[trigger] out@[j]).0) == keys@[j]
                    && out@[j].1 == self.tiles@[keys@[j]],
            decreases keys.len() - i,
        {
            let k = keys[i];
            let tile = *self.tiles.get(&k).unwrap();
            out.push((Position::from_key(k), tile));
            i = i + 1;
        }
        proof {
            assert forall|k: (u16, u16, u8)| #[trigger] self.view().tiles.contains_key(k)
                implies exists|i: int| 0 <= i < out@.len() && position_key(out@[i].0) == k by {
                assert(keys@.contains(k));
                let j = choose|j: int| 0 <= j < keys@.len() && keys@[j] == k;
                assert(position_key(out@[j].0) == k);
            }
        }
        out
    }

    pub fn tile(&self, position: Position) -> (r: Option<WorldMapTile>)
        ensures
            r == (if self.view().tiles.contains_key(position_key(position)) {
                Some(self.view().tiles[position_key(position)]) } else { None }),
    {
        match self.tiles.get(&position.key()) {
            Some(t) => Some(*t),
            None => None,
        }
    }

    pub fn is_walkable(&self, position: Position) -> (r: bool)
        ensures
            r == walkable(self.view(), position),
    {
        match self.tiles.get(&position.key()) {
            Some(t) => t.walkable,
            None => false,
        }
    }

    /// The walkable tile with the least position, if any.
    pub fn first_walkable_position(&self) -> (r: Option<Position>)
        ensures
            match r {
                Some(p) => walkable(self.view(), p) && forall|k: (u16, u16, u8)| #[trigger] self.view().tiles.contains_key(k)
                    && self.view().tiles[k].walkable && k != position_key(p) ==> key_lt(position_key(p), k),
                None => forall|k: (u16, u16, u8)| #[trigger] self.view().tiles.contains_key(k) ==> !self.view().tiles[k].walkable,
            },
    {
        let keys = map_keys_pos(&self.tiles);
        let mut i: usize = 0;
        while i < keys.len()
            invariant
                i <= keys@.len(),
                forall|j: int| 0 <= j < keys@.len() ==> self.tiles@.contains_key(#[trigger] keys@[j]),
                forall|a: int, b: int| 0 <= a < b < keys@.len() ==> key_lt(keys@[a], keys@[b]),
                forall|j: int| 0 <= j < i ==> !self.tiles@[#[trigger] keys@[j]].walkable,
                forall|k: (u16, u16, u8)| #[trigger] self.tiles@.contains_key(k) ==> keys@.contains(k),
            decreases keys.len() - i,
        {
            let k = keys[i];
            if self.tiles.get(&k).unwrap().walkable {
                proof {
                    assert forall|q: (u16, u16, u8)| #[trigger] self.view().tiles.contains_key(q)
                        && self.view().tiles[q].walkable && q != position_key(key_position(k)) implies key_lt(position_key(key_position(k)), q) by {
                        assert(keys@.contains(q));
                        let j = choose|j: int| 0 <= j < keys@.len() && keys@[j] == q;
                        if j < i { assert(!self.tiles@[keys@[j]].walkable); }
                        assert(j != i);
                    }
                }
                return Some(Position::from_key(k));
            }
            i = i + 1;
        }
        proof {
            assert forall|q: (u16, u16, u8)| #[trigger] self.view().tiles.contains_key(q) implies !self.view().tiles[q].walkable by {
                assert(keys@.contains(q));
                let j = choose|j: int| 0 <= j < keys@.len() && keys@[j] == q;
            }
        }
        None
    }

    /// Sets one tile; a new tile beyond the tile bound is refused.
    pub fn set_tile(&mut self, position: Position, tile: WorldMapTile) -> (r: Result<(), CoreError>)
        ensures
            (!old(self).view().tiles.contains_key(position_key(position))
                && old(self).view().tiles.dom().len() >= MAX_WORLD_MAP_TILES)
                ==> r == Err::<(), CoreError>(CoreError::MapTileLimit(MAX_WORLD_MAP_TILES)) && final(self).view() == old(self).view(),
            !(!old(self).view().tiles.contains_key(position_key(position))
                && old(self).view().tiles.dom().len() >= MAX_WORLD_MAP_TILES)
                ==> r is Ok && final(self).view() == (WorldMapView {
                    tiles: old(self).view().tiles.insert(position_key(position), tile), ..old(self).view() }),
    {
        let k = position.key();
        if !self.tiles.contains_key(&k) && self.tiles.len() >= MAX_WORLD_MAP_TILES {
            return Err(CoreError::MapTileLimit(MAX_WORLD_MAP_TILES));
        }
        self.tiles.insert(k, tile);
        Ok(())
    }

    /// The top-level items of a tile, bottom first.
    pub fn tile_items(&self, position: Position) -> (r: Option<&[WorldMapItem]>)
        ensures
            match r {
                Some(items) => self.view().tile_items.contains_key(position_key(position))
                    && items@ == self.view().tile_items[position_key(position)],
                None => !self.view().tile_items.contains_key(position_key(position)),
            },
    {
        match self.tile_items.get(&position.key()) {
            Some(v) => Some(v.as_slice()),
            None => None,
        }
    }

    /// Every tile item list with its position, ascending.
    pub fn tile_item_entries(&self) -> (r: Vec<(Position, &[WorldMapItem])>)
        ensures
            r@.len() == self.view().tile_items.dom().len(),
            forall|i: int| 0 <= i < r@.len() ==> self.view().tile_items.contains_key(position_key((#[trigger] r@[i]).0))
                && r@[i].1@ == self.view().tile_items[position_key(r@[i].0)],
            forall|i: int, j: int| 0 <= i < j < r@.len() ==> key_lt(position_key(r@[i].0), position_key(r@[j].0)),
    {
        let keys = map_keys_pos(&self.tile_items);
        let mut out: Vec<(Position, &[WorldMapItem])> = Vec::new();
        let mut i: usize = 0;
        while i < keys.len()
            invariant
                i <= keys@.len(),
                out@.len() == i,
                forall|j: int| 0 <= j < keys@.len() ==> self.tile_items@.contains_key(#[trigger] keys@[j]),
                forall|j: int| 0 <= j < i ==> position_key((#[trigger] out@[j]).0) == keys@[j]
                    && out@[j].1@ == self.tile_items@[keys@[j]]@,
            decreases keys.len() - i,
        {
            let k = keys[i];
            let v = self.tile_items.get(&k).unwrap();
            out.push((Position::from_key(k), v.as_slice()));
            i = i + 1;
        }
        proof { assert(self.view().tile_items.dom() =~= self.tile_items@.dom()); }
        out
    }

    /// Replaces the item list of a tile, bounded per tile.
    pub fn set_tile_items(&mut self, position: Position, items: Vec<WorldMapItem>) -> (r: Result<(), CoreError>)
        ensures
            items@.len() > MAX_WORLD_MAP_ITEMS_PER_TILE ==> r == Err::<(), CoreError>(CoreError::MapTileItemLimit(MAX_WORLD_MAP_ITEMS_PER_TILE))
                && final(self).view() == old(self).view(),
            items@.len() <= MAX_WORLD_MAP_ITEMS_PER_TILE ==> r is Ok && final(self).view() == (WorldMapView {
                tile_items: old(self).view().tile_items.insert(position_key(position), items@), ..old(self).view() }),
    {
        if items.len() > MAX_WORLD_MAP_ITEMS_PER_TILE {
            return Err(CoreError::MapTileItemLimit(MAX_WORLD_MAP_ITEMS_PER_TILE));
        }
        let ghost before = self.view();
        self.tile_items.insert(position.key(), items);
        proof {
            assert(self.view().tile_items =~= before.tile_items.insert(position_key(position), items@));
        }
        Ok(())
    }

    /// True when the tile carries the imported protection-zone flag.
    pub fn is_protection_zone(&self, position: Position) -> (r: bool)
        ensures
            r == protection_zone(self.view(), position),
    {
        match self.tile_flags.get(&position.key()) {
            Some(flags) => (*flags & OTBM_TILE_FLAG_PROTECTION_ZONE) != 0,
            None => false,
        }
    }

    pub fn tile_flags(&self, position: Position) -> (r: u32)
        ensures
            r == (if self.view().tile_flags.contains_key(position_key(position)) {
                self.view().tile_flags[position_key(position)] } else { 0 }),
    {
        match self.tile_flags.get(&position.key()) {
            Some(flags) => *flags,
            None => 0,
        }
    }

    /// Every flagged tile with its flags, ascending.
    pub fn tile_flag_entries(&self) -> (r: Vec<(Position, u32)>)
        ensures
            r@.len() == self.view().tile_flags.dom().len(),
            forall|i: int| 0 <= i < r@.len() ==> self.view().tile_flags.contains_key(position_key((#[trigger] r@[i]).0))
                && r@[i].1 == self.view().tile_flags[position_key(r@[i].0)],
            forall|i: int, j: int| 0 <= i < j < r@.len() ==> key_lt(position_key(r@[i].0), position_key(r@[j].0)),
    {
        let keys = map_keys_pos(&self.tile_flags);
        let mut out: Vec<(Position, u32)> = Vec::new();
        let mut i: usize = 0;
        while i < keys.len()
            invariant
                i <= keys@.len(),
                out@.len() == i,
                forall|j: int| 0 <= j < keys@.len() ==> self.tile_flags@.contains_key(#[trigger] keys@[j]),
                forall|j: int| 0 <= j < i ==> position_key((#[trigger] out@[j]).0) == keys@[j]
                    && out@[j].1 == self.tile_flags@[keys@[j]],
            decreases keys.len() - i,
        {
            let k = keys[i];
            out.push((Position::from_key(k), *self.tile_flags.get(&k).unwrap()));
            i = i + 1;
        }
        out
    }

    /// Sets the flags of a tile; zero flags remove the entry.
    pub fn set_tile_flags(&mut self, position: Position, flags: u32)
        ensures
            final(self).view() == (WorldMapView {
                tile_flags: if flags == 0 { old(self).view().tile_flags.remove(position_key(position)) }
                    else { old(self).view().tile_flags.insert(position_key(position), flags) },
                ..old(self).view()
            }),
    {
        if flags == 0 {
            self.tile_flags.remove(&position.key());
        } else {
            self.tile_flags.insert(position.key(), flags);
        }
    }

    pub fn house_tile_id(&self, position: Position) -> (r: Option<u32>)
        ensures
            r == (if self.view().house_tiles.contains_key(position_key(position)) {
                Some(self.view().house_tiles[position_key(position)]) } else { None }),
    {
        match self.house_tiles.get(&position.key()) {
            Some(h) => Some(*h),
            None => None,
        }
    }

    /// Every house tile with its house, ascending.
    pub fn house_tile_entries(&self) -> (r: Vec<(Position, u32)>)
        ensures
            r@.len() == self.view().house_tiles.dom().len(),
            forall|i: int| 0 <= i < r@.len() ==> self.view().house_tiles.contains_key(position_key((#[trigger] r@[i]).0))
                && r@[i].1 == self.view().house_tiles[position_key(r@[i].0)],
            forall|i: int, j: int| 0 <= i < j < r@.len() ==> key_lt(position_key(r@[i].0), position_key(r@[j].0)),
    {
        let keys = map_keys_pos(&self.house_tiles);
        let mut out: Vec<(Position, u32)> = Vec::new();
        let mut i: usize = 0;
        while i < keys.len()
            invariant
                i <= keys@.len(),
                out@.len() == i,
                forall|j: int| 0 <= j < keys@.len() ==> self.house_tiles@.contains_key(#[trigger] keys@[j]),
                forall|j: int| 0 <= j < i ==> position_key((#[trigger] out@[j]).0) == keys@[j]
                    && out@[j].1 == self.house_tiles@[keys@[j]],
            decreases keys.len() - i,
        {
            let k = keys[i];
            out.push((Position::from_key(k), *self.house_tiles.get(&k).unwrap()));
            i = i + 1;
        }
        out
    }

    /// Assigns a tile to a house; house zero is refused.
    pub fn set_house_tile(&mut self, position: Position, house_id: u32) -> (r: Result<(), CoreError>)
        ensures
            house_id == 0 ==> r is Err && r->Err_0 is InvalidMap && final(self).view() == old(self).view(),
            house_id != 0 ==> r is Ok && final(self).view() == (WorldMapView {
                house_tiles: old(self).view().house_tiles.insert(position_key(position), house_id), ..old(self).view() }),
    {
        if house_id == 0 {
            return Err(CoreError::InvalidMap("house IDs must be nonzero".to_owned()));
        }
        self.house_tiles.insert(position.key(), house_id);
        Ok(())
    }

    /// Every town, by ascending identifier.
    pub fn towns(&self) -> (r: Vec<&WorldMapTown>)
        ensures
            r@.len() == self.view().towns.dom().len(),
            forall|i: int| 0 <= i < r@.len() ==> town_listed(self.view(), *(#[trigger] r@[i])),
    {
        let keys = map_keys_u32(&self.towns);
        let mut out: Vec<&WorldMapTown> = Vec::new();
        let mut i: usize = 0;
        while i < keys.len()
            invariant
                i <= keys@.len(),
                out@.len() == i,
                forall|j: int| 0 <= j < keys@.len() ==> self.towns@.contains_key(#[trigger] keys@[j]),
                forall|j: int| 0 <= j < i ==> *(#[trigger] out@[j]) == self.towns@[keys@[j]],
            decreases keys.len() - i,
        {
            let k = keys[i];
            out.push(self.towns.get(&k).unwrap());
            i = i + 1;
        }
        proof {
            assert forall|i: int| 0 <= i < out@.len() implies town_listed(self.view(), *(#[trigger] out@[i])) by {
                let k = keys@[i];
                assert(self.towns@.contains_key(k));
                assert(self.view().towns.contains_key(k) && *out@[i] == self.view().towns[k]);
            }
        }
        out
    }

    pub fn town(&self, id: u32) -> (r: Option<&WorldMapTown>)
        ensures
            match r {
                Some(t) => self.view().towns.contains_key(id) && *t == self.view().towns[id],
                None => !self.view().towns.contains_key(id),
            },
    {
        self.towns.get(&id)
    }

    pub fn temple_position_for_town(&self, id: u32) -> (r: Option<Position>)
        ensures
            r == (if self.view().towns.contains_key(id) { Some(self.view().towns[id].temple_position) } else { None }),
    {
        match self.towns.get(&id) {
            Some(t) => Some(t.temple_position),
            None => None,
        }
    }

    /// Adds or replaces a town; a zero identifier, a blank name or a new town beyond the bound is refused.
    pub fn set_town(&mut self, town: WorldMapTown) -> (r: Result<(), CoreError>)
        ensures
            (town.id == 0 || spec_is_blank(town.name@)) ==> r is Err && r->Err_0 is InvalidMap,
            !(town.id == 0 || spec_is_blank(town.name@)) && !old(self).view().towns.contains_key(town.id)
                && old(self).view().towns.dom().len() >= MAX_WORLD_MAP_TOWNS
                ==> r == Err::<(), CoreError>(CoreError::MapTownLimit(MAX_WORLD_MAP_TOWNS)),
            r is Err ==> final(self).view() == old(self).view(),
            r is Ok <==> !(town.id == 0 || spec_is_blank(town.name@)) && !(!old(self).view().towns.contains_key(town.id)
                && old(self).view().towns.dom().len() >= MAX_WORLD_MAP_TOWNS),
            r is Ok ==> final(self).view() == (WorldMapView { towns: old(self).view().towns.insert(town.id, town), ..old(self).view() }),
    {
        if town.id == 0 || is_blank(town.name.as_str()) {
            return Err(CoreError::InvalidMap("town IDs must be nonzero and town names cannot be empty".to_owned()));
        }
        if !self.towns.contains_key(&town.id) && self.towns.len() >= MAX_WORLD_MAP_TOWNS {
            return Err(CoreError::MapTownLimit(MAX_WORLD_MAP_TOWNS));
        }
        self.towns.insert(town.id, town);
        Ok(())
    }

    fn waypoint_slot(&self, name: &str) -> (r: usize)
        ensures
            r == insert_slot(self.view().waypoints, name@, 0),
    {
        let ghost w = self.view().waypoints;
        let mut i: usize = 0;
        while i < self.waypoints.len()
            invariant
                i <= self.waypoints@.len(),
                w == self.view().waypoints,
                w.len() == self.waypoints@.len(),
                insert_slot(w, name@, 0) == insert_slot(w, name@, i as int),
            decreases self.waypoints.len() - i,
        {
            assert(w[i as int].0 == self.waypoints@[i as int].0@);
            if !text_lt(self.waypoints[i].0.as_str(), name) {
                return i;
            }
            i = i + 1;
        }
        i
    }

    fn waypoint_index(&self, name: &String) -> (r: Option<usize>)
        ensures
            match r {
                Some(i) => i < self.waypoints@.len() && self.waypoints@[i as int].0@ == name@
                    && forall|j: int| i < j < self.waypoints@.len() ==> self.waypoints@[j].0@ != name@,
                None => forall|j: int| 0 <= j < self.waypoints@.len() ==> self.waypoints@[j].0@ != name@,
            },
    {
        let mut i: usize = self.waypoints.len();
        while i > 0
            invariant
                i <= self.waypoints@.len(),
                forall|j: int| i <= j < self.waypoints@.len() ==> self.waypoints@[j].0@ != name@,
            decreases i,
        {
            i = i - 1;
            if self.waypoints[i].0 == *name {
                return Some(i);
            }
        }
        None
    }

    /// The position of a named waypoint.
    pub fn waypoint(&self, name: &str) -> (r: Option<Position>)
        ensures
            r == waypoint_lookup(self.view().waypoints, name@),
    {
        let key = name.to_owned();
        let found = self.waypoint_index(&key);
        proof { self.lemma_waypoint_lookup(name@, found); }
        match found {
            Some(i) => Some(self.waypoints[i].1),
            None => None,
        }
    }

    proof fn lemma_waypoint_lookup(&self, name: Seq<char>, found: Option<usize>)
        requires
            match found {
                Some(i) => i < self.waypoints@.len() && self.waypoints@[i as int].0@ == name
                    && forall|j: int| i < j < self.waypoints@.len() ==> self.waypoints@[j].0@ != name,
                None => forall|j: int| 0 <= j < self.waypoints@.len() ==> self.waypoints@[j].0@ != name,
            },
        ensures
            waypoint_lookup(self.view().waypoints, name) == match found {
                Some(i) => Some(self.waypoints@[i as int].1),
                None => None,
            },
    {
        let w = self.view().waypoints;
        lemma_lookup_suffix(w, name, w.len() as int, found);
    }

    /// Every waypoint, in ascending name order.
    pub fn waypoints(&self) -> (r: Vec<(&str, Position)>)
        ensures
            r@.len() == self.view().waypoints.len(),
            forall|i: int| 0 <= i < r@.len() ==> (#[trigger] r@[i]).0@ == self.view().waypoints[i].0
                && r@[i].1 == self.view().waypoints[i].1,
    {
        let mut out: Vec<(&str, Position)> = Vec::new();
        let mut i: usize = 0;
        while i < self.waypoints.len()
            invariant
                i <= self.waypoints@.len(),
                out@.len() == i,
                forall|j: int| 0 <= j < i ==> (#[trigger] out@[j]).0@ == self.waypoints@[j].0@
                    && out@[j].1 == self.waypoints@[j].1,
            decreases self.waypoints.len() - i,
        {
            out.push((self.waypoints[i].0.as_str(), self.waypoints[i].1));
            i = i + 1;
        }
        out
    }

    /// Names a waypoint; blank names and new names beyond the bound are refused.
    pub fn set_waypoint(&mut self, name: &str, position: Position) -> (r: Result<(), CoreError>)
        ensures
            spec_is_blank(name@) ==> r is Err && r->Err_0 is InvalidMap,
            r is Err ==> final(self).view() == old(self).view(),
            !spec_is_blank(name@) && waypoint_lookup(old(self).view().waypoints, name@) is None
                && old(self).view().waypoints.len() >= MAX_WORLD_MAP_WAYPOINTS
                ==> r == Err::<(), CoreError>(CoreError::MapWaypointLimit(MAX_WORLD_MAP_WAYPOINTS)),
            r is Ok <==> !spec_is_blank(name@) && !(waypoint_lookup(old(self).view().waypoints, name@) is None
                && old(self).view().waypoints.len() >= MAX_WORLD_MAP_WAYPOINTS),
            r is Ok ==> waypoint_lookup(final(self).view().waypoints, name@) == Some(position),
            r is Ok ==> forall|other: Seq<char>| other != name@ ==> waypoint_lookup(final(self).view().waypoints, other)
                == waypoint_lookup(old(self).view().waypoints, other),
            r is Ok ==> final(self).view() == (WorldMapView { waypoints: final(self).view().waypoints, ..old(self).view() }),
            r is Ok && waypoint_lookup(old(self).view().waypoints, name@) is None ==> final(self).view().waypoints
                == old(self).view().waypoints.insert(insert_slot(old(self).view().waypoints, name@, 0), (name@, position)),
            r is Ok && waypoint_lookup(old(self).view().waypoints, name@) is Some ==> final(self).view().waypoints.len()
                == old(self).view().waypoints.len() && forall|i: int| 0 <= i < old(self).view().waypoints.len() ==> (
                #[trigger] final(self).view().waypoints[i]).0 == old(self).view().waypoints[i].0 && (final(self).view().waypoints[i].0
                != name@ ==> final(self).view().waypoints[i].1 == old(self).view().waypoints[i].1),
            names_ascending(old(self).view().waypoints) ==> names_ascending(final(self).view().waypoints),
    {
        if is_blank(name) {
            return Err(CoreError::InvalidMap("waypoint names cannot be empty".to_owned()));
        }
        let key = name.to_owned();
        let found = self.waypoint_index(&key);
        proof { self.lemma_waypoint_lookup(name@, found); }
        let ghost before = self.view().waypoints;
        match found {
            Some(i) => {
                self.waypoints.set(i, (key, position));
                proof {
                    let after = self.view().waypoints;
                    assert(after =~= before.update(i as int, (name@, position)));
                    lemma_lookup_update(before, i as int, name@, position);
                    assert(forall|j: int| 0 <= j < after.len() ==> (#[trigger] after[j]).0 == before[j].0);
                }
            },
            None => {
                if self.waypoints.len() >= MAX_WORLD_MAP_WAYPOINTS {
                    return Err(CoreError::MapWaypointLimit(MAX_WORLD_MAP_WAYPOINTS));
                }
                let slot = self.waypoint_slot(name);
                proof { lemma_insert_slot_bounds(before, name@, 0); }
                self.waypoints.insert(slot, (key, position));
                proof {
                    let after = self.view().waypoints;
                    assert(after =~= before.insert(slot as int, (name@, position)));
                    lemma_lookup_insert(before, slot as int, name@, position);
                    if names_ascending(before) {
                        lemma_insert_keeps_ascending(before, name@, position);
                    }
                }
            },
        }
        Ok(())
    }

    /// Checks the map: a non-blank identifier, at least one tile, a walkable spawn, per-tile metadata
    /// only on existing tiles, and supported source-header values.
    pub fn validate(&self) -> (r: Result<(), CoreError>)
        ensures
            r is Ok <==> map_valid(self.view()),
            r is Err ==> r->Err_0 is InvalidMap,
    {
        if is_blank(self.identifier.as_str()) {
            return Err(CoreError::InvalidMap("map identifier cannot be empty".to_owned()));
        }
        if self.tiles.is_empty() {
            return Err(CoreError::InvalidMap("map must contain at least one tile".to_owned()));
        }
        if !self.is_walkable(self.spawn) {
            return Err(CoreError::InvalidMap("map spawn must reference a walkable tile".to_owned()));
        }
        let item_keys = map_keys_pos(&self.tile_items);
        if !self.all_tiles_exist(&item_keys) {
            proof {
                let j = choose|j: int| 0 <= j < item_keys@.len() && !self.tiles@.contains_key(item_keys@[j]);
                assert(self.view().tile_items.contains_key(item_keys@[j]));
            }
            return Err(CoreError::InvalidMap("tile item stack references a missing tile".to_owned()));
        }
        let flag_keys = map_keys_pos(&self.tile_flags);
        if !self.all_tiles_exist(&flag_keys) {
            proof {
                let j = choose|j: int| 0 <= j < flag_keys@.len() && !self.tiles@.contains_key(flag_keys@[j]);
                assert(self.view().tile_flags.contains_key(flag_keys@[j]));
            }
            return Err(CoreError::InvalidMap("tile flags reference a missing tile".to_owned()));
        }
        let house_keys = map_keys_pos(&self.house_tiles);
        if !self.all_tiles_exist(&house_keys) {
            proof {
                let j = choose|j: int| 0 <= j < house_keys@.len() && !self.tiles@.contains_key(house_keys@[j]);
                assert(self.view().house_tiles.contains_key(house_keys@[j]));
            }
            return Err(CoreError::InvalidMap("house tile references a missing tile".to_owned()));
        }
        match &self.source {
            WorldMapSource::Otbm(header) => {
                if !(1 <= header.version && header.version <= 2) || header.width == 0 || header.height == 0 {
                    return Err(CoreError::InvalidMap(
                        "OTBM source metadata has an unsupported version or empty dimensions".to_owned()));
                }
            },
            WorldMapSource::FeMapV1 => {},
        }
        proof {
            assert(self.view().tiles.dom().len() != 0);
            assert forall|k: (u16, u16, u8)| self.view().tile_items.contains_key(k) implies self.view().tiles.contains_key(k) by {
                assert(item_keys@.contains(k));
            }
            assert forall|k: (u16, u16, u8)| self.view().tile_flags.contains_key(k) implies self.view().tiles.contains_key(k) by {
                assert(flag_keys@.contains(k));
            }
            assert forall|k: (u16, u16, u8)| self.view().house_tiles.contains_key(k) implies self.view().tiles.contains_key(k) by {
                assert(house_keys@.contains(k));
            }
        }
        Ok(())
    }

    fn all_tiles_exist(&self, keys: &Vec<(u16, u16, u8)>) -> (r: bool)
        ensures
            r == forall|j: int| 0 <= j < keys@.len() ==> self.tiles@.contains_key(#[trigger] keys@[j]),
    {
        let mut i: usize = 0;
        while i < keys.len()
            invariant
                i <= keys@.len(),
                forall|j: int| 0 <= j < i ==> self.tiles@.contains_key(#[trigger] keys@[j]),
            decreases keys.len() - i,
        {
            if !self.tiles.contains_key(&keys[i]) {
                return false;
            }
            i = i + 1;
        }
        true
    }
}

/// A town stored in the map.
pub open spec fn town_listed(m: WorldMapView, t: WorldMapTown) -> bool {
    exists|k: u32| m.towns.contains_key(k) && m.towns[k] == t
}

/// The checks of `WorldMap::validate`.
pub open spec fn map_valid(m: WorldMapView) -> bool {
    &&& !spec_is_blank(m.identifier)
    &&& m.tiles.dom().len() != 0
    &&& walkable(m, m.spawn)
    &&& forall|k: (u16, u16, u8)| #[trigger] m.tile_items.contains_key(k) ==> m.tiles.contains_key(k)
    &&& forall|k: (u16, u16, u8)| #[trigger] m.tile_flags.contains_key(k) ==> m.tiles.contains_key(k)
    &&& forall|k: (u16, u16, u8)| #[trigger] m.house_tiles.contains_key(k) ==> m.tiles.contains_key(k)
    &&& match m.source {
        WorldMapSource::Otbm(h) => 1 <= h.version <= 2 && h.width != 0 && h.height != 0,
        WorldMapSource::FeMapV1 => true,
    }
}

/// Lookup in a waypoint list is decided by the last entry with the name.
proof fn lemma_lookup_suffix(w: Seq<(Seq<char>, Position)>, name: Seq<char>, n: int, found: Option<usize>)
    requires
        0 <= n <= w.len(),
        match found {
            Some(i) => i < w.len() && w[i as int].0 == name && forall|j: int| i < j < w.len() ==> w[j].0 != name,
            None => forall|j: int| 0 <= j < w.len() ==> w[j].0 != name,
        },
        found is Some ==> found->0 < n,
        n == w.len(),
    ensures
        waypoint_lookup(w, name) == match found {
            Some(i) => Some(w[i as int].1),
            None => None,
        },
    decreases w.len(),
{
    if w.len() == 0 {
    } else if w.last().0 == name {
        if found is None {
            assert(w[w.len() - 1].0 != name);
        }
    } else {
        let d = w.drop_last();
        match found {
            Some(i) => {
                assert(i < d.len());
                lemma_lookup_suffix(d, name, d.len() as int, found);
            },
            None => {
                lemma_lookup_suffix(d, name, d.len() as int, found);
            },
        }
    }
}

/// Updating the last entry with a name re-points that name and no other.
proof fn lemma_lookup_update(w: Seq<(Seq<char>, Position)>, i: int, name: Seq<char>, position: Position)
    requires
        0 <= i < w.len(),
        w[i].0 == name,
        forall|j: int| i < j < w.len() ==> w[j].0 != name,
    ensures
        waypoint_lookup(w.update(i, (name, position)), name) == Some(position),
        forall|other: Seq<char>| other != name ==> waypoint_lookup(w.update(i, (name, position)), other)
            == waypoint_lookup(w, other),
    decreases w.len(),
{
    let u = w.update(i, (name, position));
    if i == w.len() - 1 {
        assert(u.drop_last() =~= w.drop_last());
    } else {
        assert(u.drop_last() =~= w.drop_last().update(i, (name, position)));
        lemma_lookup_update(w.drop_last(), i, name, position);
    }
    assert forall|other: Seq<char>| other != name implies waypoint_lookup(u, other) == waypoint_lookup(w, other) by {
        if i == w.len() - 1 {
            assert(u.last().0 == name);
            assert(w.last().0 == name);
            assert(waypoint_lookup(u.drop_last(), other) == waypoint_lookup(w.drop_last(), other));
        } else {
            assert(u.last() == w.last());
            assert(waypoint_lookup(w.drop_last().update(i, (name, position)), other) == waypoint_lookup(w.drop_last(), other));
            assert(waypoint_lookup(u.drop_last(), other) == waypoint_lookup(w.drop_last(), other));
        }
    }
}


proof fn lemma_insert_slot_bounds(w: Seq<(Seq<char>, Position)>, name: Seq<char>, i: int)
    requires
        0 <= i <= w.len(),
    ensures
        i <= insert_slot(w, name, i) <= w.len(),
        forall|j: int| i <= j < insert_slot(w, name, i) ==> chars_lt(#[trigger] w[j].0, name),
        insert_slot(w, name, i) < w.len() ==> !chars_lt(w[insert_slot(w, name, i)].0, name),
    decreases w.len() - i,
{
    if i < w.len() && chars_lt(w[i].0, name) {
        lemma_insert_slot_bounds(w, name, i + 1);
    }
}

/// Inserting an absent name makes it found and leaves every other name's lookup alone.
proof fn lemma_lookup_insert(w: Seq<(Seq<char>, Position)>, i: int, name: Seq<char>, position: Position)
    requires
        0 <= i <= w.len(),
        forall|j: int| 0 <= j < w.len() ==> (#[trigger] w[j]).0 != name,
    ensures
        waypoint_lookup(w.insert(i, (name, position)), name) == Some(position),
        forall|other: Seq<char>| other != name ==> waypoint_lookup(w.insert(i, (name, position)), other)
            == waypoint_lookup(w, other),
    decreases w.len(),
{
    let u = w.insert(i, (name, position));
    if i == w.len() {
        assert(u.drop_last() =~= w);
    } else {
        assert(u.last() == w.last());
        assert(u.drop_last() =~= w.drop_last().insert(i, (name, position)));
        assert(w.last().0 != name);
        lemma_lookup_insert(w.drop_last(), i, name, position);
        assert forall|other: Seq<char>| other != name implies waypoint_lookup(u, other) == waypoint_lookup(w, other) by {
            if w.last().0 != other {
                assert(waypoint_lookup(u.drop_last(), other) == waypoint_lookup(w.drop_last(), other));
            }
        }
    }
}

/// Inserting an absent name at its slot keeps the names ascending.
proof fn lemma_insert_keeps_ascending(w: Seq<(Seq<char>, Position)>, name: Seq<char>, position: Position)
    requires
        names_ascending(w),
        forall|j: int| 0 <= j < w.len() ==> (#[trigger] w[j]).0 != name,
    ensures
        names_ascending(w.insert(insert_slot(w, name, 0), (name, position))),
{
    let s = insert_slot(w, name, 0);
    lemma_insert_slot_bounds(w, name, 0);
    let u = w.insert(s, (name, position));
    assert forall|j: int| s <= j < w.len() implies chars_lt(name, #[trigger] w[j].0) by {
        lemma_chars_lt_total(w[s].0, name);
        if j > s {
            lemma_chars_lt_transitive(name, w[s].0, w[j].0);
        }
    }
    assert forall|a: int, b: int| 0 <= a < b < u.len() implies chars_lt(#[trigger] u[a].0, #[trigger] u[b].0) by {
        if b < s {
            assert(u[a] == w[a] && u[b] == w[b]);
        } else if b == s {
            assert(u[a] == w[a]);
        } else if a < s {
            assert(u[a] == w[a] && u[b] == w[b - 1]);
            lemma_chars_lt_transitive(w[a].0, name, w[b - 1].0);
        } else if a == s {
            assert(u[b] == w[b - 1]);
        } else {
            assert(u[a] == w[a - 1] && u[b] == w[b - 1]);
        }
    }
}

/// The offset basis and prime of the 64-bit FNV-1a hash.
pub const FNV_OFFSET_BASIS: u64 = 0xcbf2_9ce4_8422_2325;
pub const FNV_PRIME: u64 = 0x0000_0100_0000_01b3;

/// One FNV-1a step.
pub open spec fn fnv_step(h: u64, b: u8) -> u64 {
    (h ^ (b as u64)).wrapping_mul(FNV_PRIME)
}

/// FNV-1a over `s` from state `h`.
pub open spec fn fnv_from(h: u64, s: Seq<u8>) -> u64
    decreases s.len(),
{
    if s.len() == 0 { h } else { fnv_step(fnv_from(h, s.drop_last()), s.last()) }
}

/// Hashing a concatenation is hashing its parts in turn.
pub proof fn lemma_fnv_concat(h: u64, a: Seq<u8>, b: Seq<u8>)
    ensures
        fnv_from(h, a + b) == fnv_from(fnv_from(h, a), b),
    decreases b.len(),
{
    if b.len() == 0 {
        assert(a + b =~= a);
    } else {
        lemma_fnv_concat(h, a, b.drop_last());
        assert((a + b).drop_last() =~= a + b.drop_last());
        assert((a + b).last() == b.last());
    }
}

/// Hashing one more byte is one more step.
pub proof fn lemma_fnv_push(h: u64, s: Seq<u8>, b: u8)
    ensures
        fnv_from(h, s.push(b)) == fnv_step(fnv_from(h, s), b),
{
    assert(s.push(b).drop_last() =~= s);
}

/// Little-endian bytes of integers.
pub open spec fn le16(v: u16) -> Seq<u8> {
    seq![(v % 256) as u8, (v / 256) as u8]
}

pub open spec fn le32(v: u32) -> Seq<u8> {
    seq![(v % 256) as u8, ((v / 256) % 256) as u8, ((v / 65536) % 256) as u8, (v / 16777216) as u8]
}

/// A length clamped into `u32`.
pub open spec fn clamp32(n: int) -> u32 {
    if n > u32::MAX { u32::MAX } else { n as u32 }
}

pub open spec fn enc_bool(b: bool) -> Seq<u8> {
    seq![if b { 1u8 } else { 0u8 }]
}

/// A text: its UTF-8 byte length, then its UTF-8 bytes.
pub open spec fn enc_text(s: Seq<char>) -> Seq<u8> {
    le32(clamp32((encode_utf8(s).len() as usize) as int)) + encode_utf8(s)
}

pub open spec fn enc_opt_text(o: Option<String>) -> Seq<u8> {
    match o {
        Some(s) => seq![1u8] + enc_text(s@),
        None => seq![0u8],
    }
}

pub open spec fn enc_position(p: Position) -> Seq<u8> {
    le16(p.x) + le16(p.y) + seq![p.z]
}

pub open spec fn enc_opt_u16(o: Option<u16>) -> Seq<u8> {
    match o { Some(v) => seq![1u8] + le16(v), None => seq![0u8] }
}

pub open spec fn enc_opt_u32(o: Option<u32>) -> Seq<u8> {
    match o { Some(v) => seq![1u8] + le32(v), None => seq![0u8] }
}

pub open spec fn enc_opt_position(o: Option<Position>) -> Seq<u8> {
    match o { Some(p) => seq![1u8] + enc_position(p), None => seq![0u8] }
}

/// The fields of one item before its children.
pub open spec fn enc_item_head(i: WorldMapItem) -> Seq<u8> {
    le16(i.server_id) + enc_opt_u16(i.client_thing_id) + seq![i.count] + enc_opt_u16(i.action_id)
        + enc_opt_u16(i.unique_id) + enc_opt_text(i.text) + enc_opt_text(i.description)
        + enc_opt_position(i.teleport_destination) + enc_opt_u32(i.duration) + enc_opt_u16(i.charges)
}

/// One item: its fields, its number of children, then each child.
pub open spec fn enc_item(i: WorldMapItem) -> Seq<u8>
    decreases i, 1int,
{
    enc_item_head(i) + le32(clamp32(i.children@.len() as int)) + enc_children(i, i.children@.len() as int)
}

/// The first `n` children of an item.
pub open spec fn enc_children(i: WorldMapItem, n: int) -> Seq<u8>
    decreases i, 0int, n,
{
    if n <= 0 || n > i.children@.len() {
        Seq::empty()
    } else {
        proof { vstd::std_specs::vec::axiom_vec_index_decreases(i.children, n - 1); }
        enc_children(i, n - 1) + enc_item(i.children@[n - 1])
    }
}

/// A sequence of items, in order.
pub open spec fn enc_items(s: Seq<WorldMapItem>) -> Seq<u8>
    decreases s.len(),
{
    if s.len() == 0 { Seq::empty() } else { enc_items(s.drop_last()) + enc_item(s.last()) }
}

pub open spec fn enc_source(s: WorldMapSource) -> Seq<u8> {
    match s {
        WorldMapSource::FeMapV1 => seq![0u8],
        WorldMapSource::Otbm(h) => seq![1u8] + le32(h.version) + le16(h.width) + le16(h.height)
            + le32(h.item_major_version) + le32(h.item_minor_version) + enc_opt_text(h.description)
            + enc_opt_text(h.spawn_file) + enc_opt_text(h.house_file),
    }
}

pub open spec fn enc_tiles(m: Map<(u16, u16, u8), WorldMapTile>, keys: Seq<(u16, u16, u8)>) -> Seq<u8>
    decreases keys.len(),
{
    if keys.len() == 0 { Seq::empty() } else {
        let k = keys.last();
        enc_tiles(m, keys.drop_last()) + enc_position(key_position(k)) + le16(m[k].ground_thing_id) + enc_bool(m[k].walkable)
    }
}

pub open spec fn enc_tile_items(m: Map<(u16, u16, u8), Seq<WorldMapItem>>, keys: Seq<(u16, u16, u8)>) -> Seq<u8>
    decreases keys.len(),
{
    if keys.len() == 0 { Seq::empty() } else {
        let k = keys.last();
        enc_tile_items(m, keys.drop_last()) + enc_position(key_position(k)) + le32(clamp32(m[k].len() as int)) + enc_items(m[k])
    }
}

pub open spec fn enc_u32_entries(m: Map<(u16, u16, u8), u32>, keys: Seq<(u16, u16, u8)>) -> Seq<u8>
    decreases keys.len(),
{
    if keys.len() == 0 { Seq::empty() } else {
        let k = keys.last();
        enc_u32_entries(m, keys.drop_last()) + enc_position(key_position(k)) + le32(m[k])
    }
}

pub open spec fn enc_towns(m: Map<u32, WorldMapTown>, keys: Seq<u32>) -> Seq<u8>
    decreases keys.len(),
{
    if keys.len() == 0 { Seq::empty() } else {
        let k = keys.last();
        enc_towns(m, keys.drop_last()) + le32(k) + enc_text(m[k].name@) + enc_position(m[k].temple_position)
    }
}

pub open spec fn enc_waypoints(w: Seq<(Seq<char>, Position)>) -> Seq<u8>
    decreases w.len(),
{
    if w.len() == 0 { Seq::empty() } else { enc_waypoints(w.drop_last()) + enc_text(w.last().0) + enc_position(w.last().1) }
}

/// The canonical byte encoding of a map's complete content.
pub open spec fn enc_map(m: WorldMapView) -> Seq<u8> {
    enc_text(m.identifier) + enc_position(m.spawn) + enc_source(m.source)
        + le32(clamp32(m.tiles.dom().len() as int)) + enc_tiles(m.tiles, sorted_pos(m.tiles.dom()))
        + le32(clamp32(m.tile_items.dom().len() as int)) + enc_tile_items(m.tile_items, sorted_pos(m.tile_items.dom()))
        + le32(clamp32(m.tile_flags.dom().len() as int)) + enc_u32_entries(m.tile_flags, sorted_pos(m.tile_flags.dom()))
        + le32(clamp32(m.house_tiles.dom().len() as int)) + enc_u32_entries(m.house_tiles, sorted_pos(m.house_tiles.dom()))
        + le32(clamp32(m.towns.dom().len() as int)) + enc_towns(m.towns, sorted_u32(m.towns.dom()))
        + le32(clamp32(m.waypoints.len() as int)) + enc_waypoints(m.waypoints)
}

/// The revision of a map: FNV-1a over its canonical encoding.
pub open spec fn revision_of(m: WorldMapView) -> u64 {
    fnv_from(FNV_OFFSET_BASIS, enc_map(m))
}

fn fnv_byte(h: u64, b: u8) -> (r: u64)
    ensures
        r == fnv_step(h, b),
{
    (h ^ (b as u64)).wrapping_mul(FNV_PRIME)
}

/// Hashes bytes onto a state.
fn fnv_bytes(h: u64, bytes: &[u8]) -> (r: u64)
    ensures
        r == fnv_from(h, bytes@),
{
    let mut out = h;
    let mut i: usize = 0;
    while i < bytes.len()
        invariant
            i <= bytes@.len(),
            out == fnv_from(h, bytes@.take(i as int)),
        decreases bytes.len() - i,
    {
        proof { assert(bytes@.take(i + 1).drop_last() =~= bytes@.take(i as int)); }
        out = fnv_byte(out, bytes[i]);
        i = i + 1;
    }
    proof { assert(bytes@.take(bytes@.len() as int) =~= bytes@); }
    out
}

fn fnv_u16(h: u64, v: u16) -> (r: u64)
    ensures
        r == fnv_from(h, le16(v)),
{
    let a = fnv_byte(h, (v % 256) as u8);
    let b = fnv_byte(a, (v / 256) as u8);
    proof {
        let e = Seq::<u8>::empty();
        lemma_fnv_push(h, e, (v % 256) as u8);
        lemma_fnv_push(h, e.push((v % 256) as u8), (v / 256) as u8);
        assert(e.push((v % 256) as u8).push((v / 256) as u8) =~= le16(v));
    }
    b
}

fn fnv_u32(h: u64, v: u32) -> (r: u64)
    ensures
        r == fnv_from(h, le32(v)),
{
    let b0 = (v % 256) as u8;
    let b1 = ((v / 256) % 256) as u8;
    let b2 = ((v / 65536) % 256) as u8;
    let b3 = (v / 16777216) as u8;
    let a = fnv_byte(h, b0);
    let b = fnv_byte(a, b1);
    let c = fnv_byte(b, b2);
    let d = fnv_byte(c, b3);
    proof {
        let e = Seq::<u8>::empty();
        lemma_fnv_push(h, e, b0);
        lemma_fnv_push(h, e.push(b0), b1);
        lemma_fnv_push(h, e.push(b0).push(b1), b2);
        lemma_fnv_push(h, e.push(b0).push(b1).push(b2), b3);
        assert(e.push(b0).push(b1).push(b2).push(b3) =~= le32(v));
    }
    d
}

fn fnv_len(h: u64, n: usize) -> (r: u64)
    ensures
        r == fnv_from(h, le32(clamp32(n as int))),
{
    let v: u32 = if n > u32::MAX as usize { u32::MAX } else { n as u32 };
    fnv_u32(h, v)
}

fn fnv_flag(h: u64, b: bool) -> (r: u64)
    ensures
        r == fnv_from(h, enc_bool(b)),
{
    let x: u8 = if b { 1 } else { 0 };
    proof {
        lemma_fnv_push(h, Seq::<u8>::empty(), x);
        assert(Seq::<u8>::empty().push(x) =~= enc_bool(b));
    }
    fnv_byte(h, x)
}

/// Hashing one leading marker byte.
proof fn lemma_fnv_marker(h: u64, x: u8, rest: Seq<u8>)
    ensures
        fnv_from(h, seq![x] + rest) == fnv_from(fnv_step(h, x), rest),
        fnv_from(h, seq![x]) == fnv_step(h, x),
{
    lemma_fnv_push(h, Seq::<u8>::empty(), x);
    assert(Seq::<u8>::empty().push(x) =~= seq![x]);
    lemma_fnv_concat(h, seq![x], rest);
}

fn fnv_text(h: u64, s: &str) -> (r: u64)
    ensures
        r == fnv_from(h, enc_text(s@)),
{
    let bytes = s.as_bytes();
    let a = fnv_len(h, s.len());
    let b = fnv_bytes(a, bytes);
    proof { lemma_fnv_concat(h, le32(clamp32((encode_utf8(s@).len() as usize) as int)), encode_utf8(s@)); }
    b
}

fn fnv_opt_text(h: u64, o: &Option<String>) -> (r: u64)
    ensures
        r == fnv_from(h, enc_opt_text(*o)),
{
    match o {
        Some(s) => {
            let a = fnv_byte(h, 1);
            proof { lemma_fnv_marker(h, 1u8, enc_text(s@)); }
            fnv_text(a, s.as_str())
        },
        None => {
            proof { lemma_fnv_marker(h, 0u8, Seq::<u8>::empty()); }
            fnv_byte(h, 0)
        },
    }
}

fn fnv_position(h: u64, p: Position) -> (r: u64)
    ensures
        r == fnv_from(h, enc_position(p)),
{
    let a = fnv_u16(h, p.x);
    let b = fnv_u16(a, p.y);
    let c = fnv_byte(b, p.z);
    proof {
        lemma_fnv_concat(h, le16(p.x), le16(p.y));
        let s = le16(p.x) + le16(p.y);
        lemma_fnv_push(h, s, p.z);
        assert(s.push(p.z) =~= s + seq![p.z]);
    }
    c
}

fn fnv_opt_u16(h: u64, o: Option<u16>) -> (r: u64)
    ensures
        r == fnv_from(h, enc_opt_u16(o)),
{
    match o {
        Some(v) => {
            let a = fnv_byte(h, 1);
            proof { lemma_fnv_marker(h, 1u8, le16(v)); }
            fnv_u16(a, v)
        },
        None => {
            proof { lemma_fnv_marker(h, 0u8, Seq::<u8>::empty()); }
            fnv_byte(h, 0)
        },
    }
}

fn fnv_opt_u32(h: u64, o: Option<u32>) -> (r: u64)
    ensures
        r == fnv_from(h, enc_opt_u32(o)),
{
    match o {
        Some(v) => {
            let a = fnv_byte(h, 1);
            proof { lemma_fnv_marker(h, 1u8, le32(v)); }
            fnv_u32(a, v)
        },
        None => {
            proof { lemma_fnv_marker(h, 0u8, Seq::<u8>::empty()); }
            fnv_byte(h, 0)
        },
    }
}

fn fnv_opt_position(h: u64, o: Option<Position>) -> (r: u64)
    ensures
        r == fnv_from(h, enc_opt_position(o)),
{
    match o {
        Some(p) => {
            let a = fnv_byte(h, 1);
            proof { lemma_fnv_marker(h, 1u8, enc_position(p)); }
            fnv_position(a, p)
        },
        None => {
            proof { lemma_fnv_marker(h, 0u8, Seq::<u8>::empty()); }
            fnv_byte(h, 0)
        },
    }
}

fn fnv_item_head(h: u64, i: &WorldMapItem) -> (r: u64)
    ensures
        r == fnv_from(h, enc_item_head(*i)),
{
    let h1 = fnv_u16(h, i.server_id);
    let h2 = fnv_opt_u16(h1, i.client_thing_id);
    let h3 = fnv_byte(h2, i.count);
    let h4 = fnv_opt_u16(h3, i.action_id);
    let h5 = fnv_opt_u16(h4, i.unique_id);
    let h6 = fnv_opt_text(h5, &i.text);
    let h7 = fnv_opt_text(h6, &i.description);
    let h8 = fnv_opt_position(h7, i.teleport_destination);
    let h9 = fnv_opt_u32(h8, i.duration);
    let h10 = fnv_opt_u16(h9, i.charges);
    proof {
        let p1 = le16(i.server_id);
        let p2 = p1 + enc_opt_u16(i.client_thing_id);
        lemma_fnv_concat(h, p1, enc_opt_u16(i.client_thing_id));
        let p3 = p2 + seq![i.count];
        lemma_fnv_push(h, p2, i.count);
        assert(p2.push(i.count) =~= p3);
        let p4 = p3 + enc_opt_u16(i.action_id);
        lemma_fnv_concat(h, p3, enc_opt_u16(i.action_id));
        let p5 = p4 + enc_opt_u16(i.unique_id);
        lemma_fnv_concat(h, p4, enc_opt_u16(i.unique_id));
        let p6 = p5 + enc_opt_text(i.text);
        lemma_fnv_concat(h, p5, enc_opt_text(i.text));
        let p7 = p6 + enc_opt_text(i.description);
        lemma_fnv_concat(h, p6, enc_opt_text(i.description));
        let p8 = p7 + enc_opt_position(i.teleport_destination);
        lemma_fnv_concat(h, p7, enc_opt_position(i.teleport_destination));
        let p9 = p8 + enc_opt_u32(i.duration);
        lemma_fnv_concat(h, p8, enc_opt_u32(i.duration));
        let p10 = p9 + enc_opt_u16(i.charges);
        lemma_fnv_concat(h, p9, enc_opt_u16(i.charges));
    }
    h10
}

/// Hashes one item with its children.
fn fnv_item(h: u64, i: &WorldMapItem) -> (r: u64)
    ensures
        r == fnv_from(h, enc_item(*i)),
    decreases i,
{
    let a = fnv_item_head(h, i);
    let b = fnv_len(a, i.children.len());
    proof { lemma_fnv_concat(h, enc_item_head(*i), le32(clamp32(i.children@.len() as int))); }
    let ghost pre = enc_item_head(*i) + le32(clamp32(i.children@.len() as int));
    let mut out = b;
    let mut k: usize = 0;
    while k < i.children.len()
        invariant
            k <= i.children@.len(),
            out == fnv_from(h, pre + enc_children(*i, k as int)),
        decreases i.children.len() - k,
    {
        proof { vstd::std_specs::vec::axiom_vec_index_decreases(i.children, k as int); }
        let next = fnv_item(out, &i.children[k]);
        proof {
            lemma_fnv_concat(h, pre + enc_children(*i, k as int), enc_item(i.children@[k as int]));
            assert(enc_children(*i, k + 1) == enc_children(*i, k as int) + enc_item(i.children@[k as int]));
            assert(pre + enc_children(*i, k + 1) =~= (pre + enc_children(*i, k as int)) + enc_item(i.children@[k as int]));
        }
        out = next;
        k = k + 1;
    }
    proof { assert(enc_item(*i) == pre + enc_children(*i, i.children@.len() as int)); }
    out
}

/// Hashes a sequence of items.
fn fnv_items(h: u64, items: &[WorldMapItem]) -> (r: u64)
    ensures
        r == fnv_from(h, enc_items(items@)),
{
    let mut out = h;
    let mut k: usize = 0;
    proof { assert(items@.take(0) =~= Seq::<WorldMapItem>::empty()); }
    while k < items.len()
        invariant
            k <= items@.len(),
            out == fnv_from(h, enc_items(items@.take(k as int))),
        decreases items.len() - k,
    {
        let next = fnv_item(out, &items[k]);
        proof {
            assert(items@.take(k + 1).drop_last() =~= items@.take(k as int));
            lemma_fnv_concat(h, enc_items(items@.take(k as int)), enc_item(items@[k as int]));
        }
        out = next;
        k = k + 1;
    }
    proof { assert(items@.take(items@.len() as int) =~= items@); }
    out
}


fn fnv_source(h: u64, s: &WorldMapSource) -> (r: u64)
    ensures
        r == fnv_from(h, enc_source(*s)),
{
    match s {
        WorldMapSource::FeMapV1 => {
            proof { lemma_fnv_marker(h, 0u8, Seq::<u8>::empty()); }
            fnv_byte(h, 0)
        },
        WorldMapSource::Otbm(hd) => {
            let h1 = fnv_byte(h, 1);
            let h2 = fnv_u32(h1, hd.version);
            let h3 = fnv_u16(h2, hd.width);
            let h4 = fnv_u16(h3, hd.height);
            let h5 = fnv_u32(h4, hd.item_major_version);
            let h6 = fnv_u32(h5, hd.item_minor_version);
            let h7 = fnv_opt_text(h6, &hd.description);
            let h8 = fnv_opt_text(h7, &hd.spawn_file);
            let h9 = fnv_opt_text(h8, &hd.house_file);
            proof {
                lemma_fnv_marker(h, 1u8, Seq::<u8>::empty());
                assert(seq![1u8] + Seq::<u8>::empty() =~= seq![1u8]);
                let p1 = seq![1u8];
                let p2 = p1 + le32(hd.version);
                lemma_fnv_concat(h, p1, le32(hd.version));
                let p3 = p2 + le16(hd.width);
                lemma_fnv_concat(h, p2, le16(hd.width));
                let p4 = p3 + le16(hd.height);
                lemma_fnv_concat(h, p3, le16(hd.height));
                let p5 = p4 + le32(hd.item_major_version);
                lemma_fnv_concat(h, p4, le32(hd.item_major_version));
                let p6 = p5 + le32(hd.item_minor_version);
                lemma_fnv_concat(h, p5, le32(hd.item_minor_version));
                let p7 = p6 + enc_opt_text(hd.description);
                lemma_fnv_concat(h, p6, enc_opt_text(hd.description));
                let p8 = p7 + enc_opt_text(hd.spawn_file);
                lemma_fnv_concat(h, p7, enc_opt_text(hd.spawn_file));
                lemma_fnv_concat(h, p8, enc_opt_text(hd.house_file));
            }
            h9
        },
    }
}

impl WorldMap {
    fn fnv_tiles(&self, h: u64) -> (r: u64)
        ensures
            r == fnv_from(h, enc_tiles(self.view().tiles, sorted_pos(self.view().tiles.dom()))),
    {
        let keys = map_keys_pos(&self.tiles);
        proof { lemma_sorted_pos(keys@, self.tiles@.dom()); }
        let mut out = h;
        let mut i: usize = 0;
        while i < keys.len()
            invariant
                i <= keys@.len(),
                forall|j: int| 0 <= j < keys@.len() ==> self.tiles@.contains_key(#[trigger] keys@[j]),
                out == fnv_from(h, enc_tiles(self.tiles@, keys@.take(i as int))),
            decreases keys.len() - i,
        {
            let k = keys[i];
            let tile = *self.tiles.get(&k).unwrap();
            let a = fnv_position(out, Position::from_key(k));
            let b = fnv_u16(a, tile.ground_thing_id);
            let c = fnv_flag(b, tile.walkable);
            proof {
                let pre = enc_tiles(self.tiles@, keys@.take(i as int));
                assert(keys@.take(i + 1).drop_last() =~= keys@.take(i as int));
                lemma_fnv_concat(h, pre, enc_position(key_position(k)));
                lemma_fnv_concat(h, pre + enc_position(key_position(k)), le16(tile.ground_thing_id));
                lemma_fnv_concat(h, pre + enc_position(key_position(k)) + le16(tile.ground_thing_id), enc_bool(tile.walkable));
            }
            out = c;
            i = i + 1;
        }
        proof { assert(keys@.take(keys@.len() as int) =~= keys@); }
        out
    }

    fn fnv_tile_items(&self, h: u64) -> (r: u64)
        ensures
            r == fnv_from(h, enc_tile_items(self.view().tile_items, sorted_pos(self.view().tile_items.dom()))),
    {
        let keys = map_keys_pos(&self.tile_items);
        let ghost v = self.view().tile_items;
        proof {
            assert(v.dom() =~= self.tile_items@.dom());
            lemma_sorted_pos(keys@, v.dom());
        }
        let mut out = h;
        let mut i: usize = 0;
        while i < keys.len()
            invariant
                i <= keys@.len(),
                v == self.view().tile_items,
                forall|j: int| 0 <= j < keys@.len() ==> self.tile_items@.contains_key(#[trigger] keys@[j]),
                out == fnv_from(h, enc_tile_items(v, keys@.take(i as int))),
            decreases keys.len() - i,
        {
            let k = keys[i];
            let items = self.tile_items.get(&k).unwrap();
            assert(v[k] == items@);
            let a = fnv_position(out, Position::from_key(k));
            let b = fnv_len(a, items.len());
            let c = fnv_items(b, items.as_slice());
            proof {
                let pre = enc_tile_items(v, keys@.take(i as int));
                assert(keys@.take(i + 1).drop_last() =~= keys@.take(i as int));
                lemma_fnv_concat(h, pre, enc_position(key_position(k)));
                lemma_fnv_concat(h, pre + enc_position(key_position(k)), le32(clamp32(items@.len() as int)));
                lemma_fnv_concat(h, pre + enc_position(key_position(k)) + le32(clamp32(items@.len() as int)), enc_items(items@));
            }
            out = c;
            i = i + 1;
        }
        proof { assert(keys@.take(keys@.len() as int) =~= keys@); }
        out
    }

    fn fnv_u32_entries(m: &BTreeMap<(u16, u16, u8), u32>, h: u64) -> (r: u64)
        ensures
            r == fnv_from(h, enc_u32_entries(m@, sorted_pos(m@.dom()))),
    {
        let keys = map_keys_pos(m);
        proof { lemma_sorted_pos(keys@, m@.dom()); }
        let mut out = h;
        let mut i: usize = 0;
        while i < keys.len()
            invariant
                i <= keys@.len(),
                forall|j: int| 0 <= j < keys@.len() ==> m@.contains_key(#[trigger] keys@[j]),
                out == fnv_from(h, enc_u32_entries(m@, keys@.take(i as int))),
            decreases keys.len() - i,
        {
            let k = keys[i];
            let value = *m.get(&k).unwrap();
            let a = fnv_position(out, Position::from_key(k));
            let b = fnv_u32(a, value);
            proof {
                let pre = enc_u32_entries(m@, keys@.take(i as int));
                assert(keys@.take(i + 1).drop_last() =~= keys@.take(i as int));
                lemma_fnv_concat(h, pre, enc_position(key_position(k)));
                lemma_fnv_concat(h, pre + enc_position(key_position(k)), le32(value));
            }
            out = b;
            i = i + 1;
        }
        proof { assert(keys@.take(keys@.len() as int) =~= keys@); }
        out
    }

    fn fnv_towns(&self, h: u64) -> (r: u64)
        ensures
            r == fnv_from(h, enc_towns(self.view().towns, sorted_u32(self.view().towns.dom()))),
    {
        let keys = map_keys_u32(&self.towns);
        proof { crate::keys::lemma_sorted_u32(keys@, self.towns@.dom()); }
        let mut out = h;
        let mut i: usize = 0;
        while i < keys.len()
            invariant
                i <= keys@.len(),
                forall|j: int| 0 <= j < keys@.len() ==> self.towns@.contains_key(#[trigger] keys@[j]),
                out == fnv_from(h, enc_towns(self.towns@, keys@.take(i as int))),
            decreases keys.len() - i,
        {
            let k = keys[i];
            let town = self.towns.get(&k).unwrap();
            let a = fnv_u32(out, k);
            let b = fnv_text(a, town.name.as_str());
            let c = fnv_position(b, town.temple_position);
            proof {
                let pre = enc_towns(self.towns@, keys@.take(i as int));
                assert(keys@.take(i + 1).drop_last() =~= keys@.take(i as int));
                lemma_fnv_concat(h, pre, le32(k));
                lemma_fnv_concat(h, pre + le32(k), enc_text(town.name@));
                lemma_fnv_concat(h, pre + le32(k) + enc_text(town.name@), enc_position(town.temple_position));
            }
            out = c;
            i = i + 1;
        }
        proof { assert(keys@.take(keys@.len() as int) =~= keys@); }
        out
    }

    fn fnv_waypoints(&self, h: u64) -> (r: u64)
        ensures
            r == fnv_from(h, enc_waypoints(self.view().waypoints)),
    {
        let ghost w = self.view().waypoints;
        let mut out = h;
        let mut i: usize = 0;
        proof { assert(w.take(0) =~= Seq::<(Seq<char>, Position)>::empty()); }
        while i < self.waypoints.len()
            invariant
                i <= self.waypoints@.len(),
                w == self.view().waypoints,
                w.len() == self.waypoints@.len(),
                out == fnv_from(h, enc_waypoints(w.take(i as int))),
            decreases self.waypoints.len() - i,
        {
            let (name, position) = &self.waypoints[i];
            let a = fnv_text(out, name.as_str());
            let b = fnv_position(a, *position);
            proof {
                let pre = enc_waypoints(w.take(i as int));
                assert(w.take(i + 1).drop_last() =~= w.take(i as int));
                assert(w[i as int] == (name@, *position));
                lemma_fnv_concat(h, pre, enc_text(name@));
                lemma_fnv_concat(h, pre + enc_text(name@), enc_position(*position));
            }
            out = b;
            i = i + 1;
        }
        proof { assert(w.take(w.len() as int) =~= w); }
        out
    }

    /// A deterministic, non-cryptographic revision of the complete map content: FNV-1a over its
    /// canonical encoding.
    pub fn source_revision(&self) -> (r: WorldMapSourceRevision)
        ensures
            r.0 == revision_of(self.view()),
    {
        let ghost m = self.view();
        let h1 = fnv_text(FNV_OFFSET_BASIS, self.identifier.as_str());
        let h2 = fnv_position(h1, self.spawn);
        let h3 = fnv_source(h2, &self.source);
        let h4 = fnv_len(h3, self.tiles.len());
        let h5 = self.fnv_tiles(h4);
        let h6 = fnv_len(h5, self.tile_items.len());
        let h7 = self.fnv_tile_items(h6);
        let h8 = fnv_len(h7, self.tile_flags.len());
        let h9 = Self::fnv_u32_entries(&self.tile_flags, h8);
        let h10 = fnv_len(h9, self.house_tiles.len());
        let h11 = Self::fnv_u32_entries(&self.house_tiles, h10);
        let h12 = fnv_len(h11, self.towns.len());
        let h13 = self.fnv_towns(h12);
        let h14 = fnv_len(h13, self.waypoints.len());
        let h15 = self.fnv_waypoints(h14);
        proof {
            let b = FNV_OFFSET_BASIS;
            assert(self.view().tile_items.dom() =~= self.tile_items@.dom());
            let p1 = enc_text(m.identifier);
            let p2 = p1 + enc_position(m.spawn);
            lemma_fnv_concat(b, p1, enc_position(m.spawn));
            let p3 = p2 + enc_source(m.source);
            lemma_fnv_concat(b, p2, enc_source(m.source));
            let p4 = p3 + le32(clamp32(m.tiles.dom().len() as int));
            lemma_fnv_concat(b, p3, le32(clamp32(m.tiles.dom().len() as int)));
            let p5 = p4 + enc_tiles(m.tiles, sorted_pos(m.tiles.dom()));
            lemma_fnv_concat(b, p4, enc_tiles(m.tiles, sorted_pos(m.tiles.dom())));
            let p6 = p5 + le32(clamp32(m.tile_items.dom().len() as int));
            lemma_fnv_concat(b, p5, le32(clamp32(m.tile_items.dom().len() as int)));
            let p7 = p6 + enc_tile_items(m.tile_items, sorted_pos(m.tile_items.dom()));
            lemma_fnv_concat(b, p6, enc_tile_items(m.tile_items, sorted_pos(m.tile_items.dom())));
            let p8 = p7 + le32(clamp32(m.tile_flags.dom().len() as int));
            lemma_fnv_concat(b, p7, le32(clamp32(m.tile_flags.dom().len() as int)));
            let p9 = p8 + enc_u32_entries(m.tile_flags, sorted_pos(m.tile_flags.dom()));
            lemma_fnv_concat(b, p8, enc_u32_entries(m.tile_flags, sorted_pos(m.tile_flags.dom())));
            let p10 = p9 + le32(clamp32(m.house_tiles.dom().len() as int));
            lemma_fnv_concat(b, p9, le32(clamp32(m.house_tiles.dom().len() as int)));
            let p11 = p10 + enc_u32_entries(m.house_tiles, sorted_pos(m.house_tiles.dom()));
            lemma_fnv_concat(b, p10, enc_u32_entries(m.house_tiles, sorted_pos(m.house_tiles.dom())));
            let p12 = p11 + le32(clamp32(m.towns.dom().len() as int));
            lemma_fnv_concat(b, p11, le32(clamp32(m.towns.dom().len() as int)));
            let p13 = p12 + enc_towns(m.towns, sorted_u32(m.towns.dom()));
            lemma_fnv_concat(b, p12, enc_towns(m.towns, sorted_u32(m.towns.dom())));
            let p14 = p13 + le32(clamp32(m.waypoints.len() as int));
            lemma_fnv_concat(b, p13, le32(clamp32(m.waypoints.len() as int)));
            lemma_fnv_concat(b, p14, enc_waypoints(m.waypoints));
        }
        WorldMapSourceRevision(h15)
    }
}


/// The items of `s` from index `i` on, without those whose index is in `removed`.
pub open spec fn kept_from(s: Seq<WorldMapItem>, removed: Set<int>, i: int) -> Seq<WorldMapItem>
    decreases s.len() - i,
{
    if i >= s.len() || i < 0 {
        Seq::empty()
    } else if removed.contains(i) {
        kept_from(s, removed, i + 1)
    } else {
        seq![s[i]] + kept_from(s, removed, i + 1)
    }
}

/// The item indices that a removal journal names on one tile.
pub open spec fn removed_at(s: Seq<WorldMapItemSourceIdentity>, key: (u16, u16, u8)) -> Set<int> {
    Set::new(|j: int| exists|k: int| 0 <= k < s.len() && position_key(#[trigger] s[k].position) == key && s[k].item_index == j)
}

/// The tile item lists after a removal journal has been applied.
pub open spec fn items_after_removals(
    t: Map<(u16, u16, u8), Seq<WorldMapItem>>,
    s: Seq<WorldMapItemSourceIdentity>,
) -> Map<(u16, u16, u8), Seq<WorldMapItem>> {
    Map::new(|key: (u16, u16, u8)| t.contains_key(key), |key: (u16, u16, u8)| kept_from(t[key], removed_at(s, key), 0))
}

/// Why journal entry `k` is refused, given the entries before it; `None` when it is acceptable.
pub open spec fn removal_fault(m: WorldMapView, s: Seq<WorldMapItemSourceIdentity>, k: int) -> Option<Seq<char>> {
    let e = s[k];
    let key = position_key(e.position);
    if e.map_revision.0 != revision_of(m) {
        Some("map-item journal source revision does not match the loaded map"@)
    } else if !m.tile_items.contains_key(key) {
        Some("map-item journal references a missing tile item list"@)
    } else if e.item_index >= m.tile_items[key].len() {
        Some("map-item journal references a missing ordered source item"@)
    } else if exists|j: int| 0 <= j < k && (#[trigger] s[j]).position == e.position && s[j].item_index == e.item_index {
        Some("map-item journal repeats one source item identity"@)
    } else {
        None
    }
}

/// The refusal of the first faulty entry among the first `n`, if any.
pub open spec fn journal_fault(m: WorldMapView, s: Seq<WorldMapItemSourceIdentity>, n: int) -> Option<Seq<char>>
    decreases n,
{
    if n <= 0 {
        None
    } else {
        match journal_fault(m, s, n - 1) {
            Some(msg) => Some(msg),
            None => removal_fault(m, s, n - 1),
        }
    }
}

proof fn lemma_kept_untouched(s: Seq<WorldMapItem>, removed: Set<int>, i: int)
    requires
        0 <= i <= s.len(),
        forall|j: int| i <= j < s.len() ==> !removed.contains(j),
    ensures
        kept_from(s, removed, i) == s.subrange(i, s.len() as int),
    decreases s.len() - i,
{
    if i < s.len() {
        lemma_kept_untouched(s, removed, i + 1);
        assert(seq![s[i]] + s.subrange(i + 1, s.len() as int) =~= s.subrange(i, s.len() as int));
    } else {
        assert(s.subrange(i, s.len() as int) =~= Seq::<WorldMapItem>::empty());
    }
}

/// True when some journal entry names item `j` of the tile at `p`.
fn names_item(removals: &[WorldMapItemSourceIdentity], p: Position, j: usize) -> (r: bool)
    ensures
        r == removed_at(removals@, position_key(p)).contains(j as int),
{
    let mut k: usize = 0;
    while k < removals.len()
        invariant
            k <= removals@.len(),
            forall|q: int| 0 <= q < k ==> !(position_key(#[trigger] removals@[q].position) == position_key(p)
                && removals@[q].item_index == j as int),
        decreases removals.len() - k,
    {
        if removals[k].position == p && removals[k].item_index as usize == j {
            return true;
        }
        k = k + 1;
    }
    false
}

/// True when an entry before `k` names the same tile as entry `k`.
fn tile_named_before(removals: &[WorldMapItemSourceIdentity], k: usize) -> (r: bool)
    requires
        k < removals@.len(),
    ensures
        r == exists|q: int| 0 <= q < k && position_key((#[trigger] removals@[q]).position) == position_key(removals@[k as int].position),
{
    let mut q: usize = 0;
    while q < k
        invariant
            q <= k < removals@.len(),
            forall|i: int| 0 <= i < q ==> position_key((#[trigger] removals@[i]).position) != position_key(removals@[k as int].position),
        decreases k - q,
    {
        if removals[q].position == removals[k].position {
            return true;
        }
        q = q + 1;
    }
    false
}

/// True when an entry before `k` is equal in tile and index to entry `k`.
fn repeated_before(removals: &[WorldMapItemSourceIdentity], k: usize) -> (r: bool)
    requires
        k < removals@.len(),
    ensures
        r == exists|j: int| 0 <= j < k && (#[trigger] removals@[j]).position == removals@[k as int].position
            && removals@[j].item_index == removals@[k as int].item_index,
{
    let mut q: usize = 0;
    while q < k
        invariant
            q <= k < removals@.len(),
            forall|j: int| 0 <= j < q ==> !((#[trigger] removals@[j]).position == removals@[k as int].position
                && removals@[j].item_index == removals@[k as int].item_index),
        decreases k - q,
    {
        if removals[q].position == removals[k].position && removals[q].item_index == removals[k].item_index {
            return true;
        }
        q = q + 1;
    }
    false
}

/// Removes, from the back, every item whose index the journal names on this tile.
fn drop_named_items(items: &mut Vec<WorldMapItem>, removals: &[WorldMapItemSourceIdentity], p: Position)
    ensures
        final(items)@ == kept_from(old(items)@, removed_at(removals@, position_key(p)), 0),
{
    let ghost s = items@;
    let ghost r = removed_at(removals@, position_key(p));
    let mut j: usize = items.len();
    proof {
        assert(s.subrange(0, j as int) =~= s);
        assert(kept_from(s, r, j as int) =~= Seq::<WorldMapItem>::empty());
        assert(items@ =~= s.subrange(0, j as int) + kept_from(s, r, j as int));
    }
    while j > 0
        invariant
            j <= s.len(),
            items@ == s.subrange(0, j as int) + kept_from(s, r, j as int),
            r == removed_at(removals@, position_key(p)),
        decreases j,
    {
        j = j - 1;
        let named = names_item(removals, p, j);
        if named {
            proof {
                assert(s.subrange(0, j + 1) + kept_from(s, r, j + 1) =~= (s.subrange(0, j as int)
                    + kept_from(s, r, j as int)).insert(j as int, s[j as int]));
            }
            items.remove(j);
            proof {
                assert((s.subrange(0, j as int) + kept_from(s, r, j as int)).insert(j as int, s[j as int]).remove(j as int)
                    =~= s.subrange(0, j as int) + kept_from(s, r, j as int));
            }
        } else {
            proof {
                assert(s.subrange(0, j + 1) + kept_from(s, r, j + 1) =~= s.subrange(0, j as int) + kept_from(s, r, j as int));
            }
        }
    }
    proof { assert(s.subrange(0, 0) + kept_from(s, r, 0) =~= kept_from(s, r, 0)); }
}

/// The entries before `k` name the tile `key`.
pub open spec fn tile_named_in(s: Seq<WorldMapItemSourceIdentity>, k: int, key: (u16, u16, u8)) -> bool {
    exists|q: int| 0 <= q < k && position_key((#[trigger] s[q]).position) == key
}

/// Applies a checked journal to the raw item lists, one named tile at a time.
fn remove_journal_items(t: &mut BTreeMap<(u16, u16, u8), Vec<WorldMapItem>>, removals: &[WorldMapItemSourceIdentity])
    requires
        forall|q: int| 0 <= q < removals@.len() ==> old(t)@.contains_key(position_key(#[trigger] removals@[q].position)),
    ensures
        final(t)@.dom() == old(t)@.dom(),
        forall|key: (u16, u16, u8)| #[trigger] old(t)@.contains_key(key) ==> final(t)@[key]@ == kept_from(
            old(t)@[key]@, removed_at(removals@, key), 0),
{
    let ghost t0 = t@;
    let mut k: usize = 0;
    while k < removals.len()
        invariant
            k <= removals@.len(),
            forall|q: int| 0 <= q < removals@.len() ==> t0.contains_key(position_key(#[trigger] removals@[q].position)),
            t@.dom() =~= t0.dom(),
            forall|key: (u16, u16, u8)| #[trigger] t0.contains_key(key) ==> t@[key]@ == (
                if tile_named_in(removals@, k as int, key) {
                    kept_from(t0[key]@, removed_at(removals@, key), 0)
                } else {
                    t0[key]@
                }),
        decreases removals.len() - k,
    {
        let p = removals[k].position;
        let key = p.key();
        let ghost kk = k as int;
        assert(removals@[kk].position == p);
        if !tile_named_before(removals, k) {
            let mut items = t.remove(&key).unwrap();
            drop_named_items(&mut items, removals, p);
            t.insert(key, items);
        }
        proof {
            assert forall|key2: (u16, u16, u8)| #[trigger] t0.contains_key(key2) implies t@[key2]@ == (
                if tile_named_in(removals@, k + 1, key2) {
                    kept_from(t0[key2]@, removed_at(removals@, key2), 0)
                } else {
                    t0[key2]@
                }) by {
                if key2 == key {
                    assert(tile_named_in(removals@, k + 1, key2));
                } else {
                    if tile_named_in(removals@, k + 1, key2) {
                        let q = choose|q: int| 0 <= q < k + 1 && position_key((#[trigger] removals@[q]).position) == key2;
                        assert(q != kk);
                        assert(tile_named_in(removals@, k as int, key2));
                    }
                }
            }
        }
        k = k + 1;
    }
    proof {
        assert forall|key: (u16, u16, u8)| #[trigger] t0.contains_key(key) implies t@[key]@ == kept_from(
            t0[key]@, removed_at(removals@, key), 0) by {
            if !tile_named_in(removals@, removals@.len() as int, key) {
                lemma_kept_untouched(t0[key]@, removed_at(removals@, key), 0);
                assert(t0[key]@.subrange(0, t0[key]@.len() as int) =~= t0[key]@);
            }
        }
    }
}

impl WorldMap {
    /// The identity of an existing top-level item in this map revision.
    pub fn source_item_identity(&self, position: Position, item_index: usize) -> (r: Option<WorldMapItemSourceIdentity>)
        ensures
            ({
                let m = self.view();
                let key = position_key(position);
                match r {
                    Some(id) => m.tile_items.contains_key(key) && item_index < m.tile_items[key].len() && item_index < 256
                        && id == (WorldMapItemSourceIdentity {
                            map_revision: WorldMapSourceRevision(revision_of(m)),
                            position,
                            item_index: item_index as u8,
                        }),
                    None => !(m.tile_items.contains_key(key) && item_index < m.tile_items[key].len() && item_index < 256),
                }
            }),
    {
        let items = match self.tile_items(position) {
            Some(items) => items,
            None => return None,
        };
        if item_index >= items.len() {
            return None;
        }
        let map_revision = self.source_revision();
        if item_index > 255 {
            return None;
        }
        Some(WorldMapItemSourceIdentity { map_revision, position, item_index: item_index as u8 })
    }

    /// Checks a removal journal entry by entry, refusing at its first faulty entry.
    fn check_journal(&self, removals: &[WorldMapItemSourceIdentity]) -> (r: Result<(), CoreError>)
        ensures
            match journal_fault(self.view(), removals@, removals@.len() as int) {
                Some(msg) => r is Err && r->Err_0 is InvalidMap && r->Err_0->InvalidMap_0@ == msg,
                None => r is Ok,
            },
    {
        let revision = self.source_revision();
        let mut k: usize = 0;
        while k < removals.len()
            invariant
                k <= removals@.len(),
                revision.0 == revision_of(self.view()),
                journal_fault(self.view(), removals@, k as int) is None,
            decreases removals.len() - k,
        {
            let e = removals[k];
            proof { lemma_journal_fault_sticks(self.view(), removals@, k as int, removals@.len() as int); }
            if e.map_revision.0 != revision.0 {
                return Err(CoreError::InvalidMap("map-item journal source revision does not match the loaded map".to_owned()));
            }
            let items = match self.tile_items(e.position) {
                Some(items) => items,
                None => {
                    return Err(CoreError::InvalidMap("map-item journal references a missing tile item list".to_owned()));
                },
            };
            if e.item_index as usize >= items.len() {
                return Err(CoreError::InvalidMap("map-item journal references a missing ordered source item".to_owned()));
            }
            if repeated_before(removals, k) {
                return Err(CoreError::InvalidMap("map-item journal repeats one source item identity".to_owned()));
            }
            k = k + 1;
        }
        Ok(())
    }

    /// Applies revision-bound top-level item removals, only after the whole journal has been
    /// checked against this revision and its current ordered items.
    pub fn apply_source_item_removals(&mut self, removals: &[WorldMapItemSourceIdentity]) -> (r: Result<(), CoreError>)
        ensures
            match journal_fault(old(self).view(), removals@, removals@.len() as int) {
                Some(msg) => r is Err && r->Err_0 is InvalidMap && r->Err_0->InvalidMap_0@ == msg
                    && final(self).view() == old(self).view(),
                None => r is Ok && final(self).view() == (WorldMapView {
                    tile_items: items_after_removals(old(self).view().tile_items, removals@),
                    ..old(self).view()
                }),
            },
    {
        let ghost m = self.view();
        match self.check_journal(removals) {
            Err(e) => return Err(e),
            Ok(()) => {},
        }
        proof {
            assert forall|q: int| 0 <= q < removals@.len() implies self.tile_items@.contains_key(
                position_key(#[trigger] removals@[q].position)) by {
                lemma_journal_entry_ok(m, removals@, removals@.len() as int, q);
            }
        }
        remove_journal_items(&mut self.tile_items, removals);
        proof {
            assert(self.view().tile_items =~= items_after_removals(m.tile_items, removals@));
        }
        Ok(())
    }
}

/// The first faulty entry decides the refusal of every longer prefix.
proof fn lemma_journal_fault_sticks(m: WorldMapView, s: Seq<WorldMapItemSourceIdentity>, k: int, n: int)
    requires
        0 <= k < n,
        journal_fault(m, s, k) is None,
    ensures
        removal_fault(m, s, k) is Some ==> journal_fault(m, s, n) == removal_fault(m, s, k),
    decreases n - k,
{
    if n > k + 1 {
        lemma_journal_fault_sticks(m, s, k, n - 1);
    }
}

/// Each entry of a journal without fault among its first `n` passes its own checks.
proof fn lemma_journal_entry_ok(m: WorldMapView, s: Seq<WorldMapItemSourceIdentity>, n: int, k: int)
    requires
        0 <= k < n,
        journal_fault(m, s, n) is None,
    ensures
        removal_fault(m, s, k) is None,
    decreases n,
{
    if k < n - 1 {
        lemma_journal_entry_ok(m, s, n - 1, k);
    }
}


proof fn lemma_kept_single(s: Seq<WorldMapItem>, removed: Set<int>, i: int, j: int)
    requires
        0 <= j <= i < s.len(),
        removed.contains(i),
        forall|q: int| j <= q < s.len() && q != i ==> !removed.contains(q),
    ensures
        kept_from(s, removed, j) == s.subrange(j, s.len() as int).remove(i - j),
    decreases i - j,
{
    if j == i {
        lemma_kept_untouched(s, removed, i + 1);
        assert(s.subrange(i + 1, s.len() as int) =~= s.subrange(i, s.len() as int).remove(0));
    } else {
        lemma_kept_single(s, removed, i, j + 1);
        assert(seq![s[j]] + s.subrange(j + 1, s.len() as int).remove(i - j - 1)
            =~= s.subrange(j, s.len() as int).remove(i - j));
    }
}

/// The identity that a map gives for one of its items is a journal that the map accepts, and
/// applying it removes exactly that item and nothing else.
pub proof fn law_identity_removal_removes_that_item(m: WorldMapView, p: Position, i: int)
    requires
        m.tile_items.contains_key(position_key(p)),
        0 <= i < m.tile_items[position_key(p)].len(),
        i < 256,
    ensures
        ({
            let id = WorldMapItemSourceIdentity {
                map_revision: WorldMapSourceRevision(revision_of(m)),
                position: p,
                item_index: i as u8,
            };
            let after = items_after_removals(m.tile_items, seq![id]);
            &&& journal_fault(m, seq![id], 1) is None
            &&& after.dom() == m.tile_items.dom()
            &&& after[position_key(p)] == m.tile_items[position_key(p)].remove(i)
            &&& forall|key: (u16, u16, u8)| #[trigger] m.tile_items.contains_key(key) && key != position_key(p)
                ==> after[key] == m.tile_items[key]
        }),
{
    let id = WorldMapItemSourceIdentity { map_revision: WorldMapSourceRevision(revision_of(m)), position: p, item_index: i as u8 };
    let j = seq![id];
    let key = position_key(p);
    lemma_single_journal_accepted(m, id);
    let after = items_after_removals(m.tile_items, j);
    assert(after.dom() =~= m.tile_items.dom());
    let s = m.tile_items[key];
    lemma_removed_at_single(id, key);
    lemma_kept_single(s, removed_at(j, key), i, 0);
    assert(s.subrange(0, s.len() as int) =~= s);
    assert forall|other: (u16, u16, u8)| #[trigger] m.tile_items.contains_key(other) && other != key
        implies after[other] == m.tile_items[other] by {
        let t = m.tile_items[other];
        lemma_removed_at_single(id, other);
        lemma_kept_untouched(t, removed_at(j, other), 0);
        assert(t.subrange(0, t.len() as int) =~= t);
    }
}

proof fn lemma_single_journal_accepted(m: WorldMapView, id: WorldMapItemSourceIdentity)
    requires
        id.map_revision.0 == revision_of(m),
        m.tile_items.contains_key(position_key(id.position)),
        id.item_index < m.tile_items[position_key(id.position)].len(),
    ensures
        journal_fault(m, seq![id], 1) is None,
{
    let j = seq![id];
    assert(j[0] == id);
    assert(journal_fault(m, j, 0) is None);
    assert(removal_fault(m, j, 0) is None);
}

proof fn lemma_removed_at_single(id: WorldMapItemSourceIdentity, key: (u16, u16, u8))
    ensures
        forall|q: int| #[trigger] removed_at(seq![id], key).contains(q) <==> (key == position_key(id.position) && q == id.item_index),
{
    let j = seq![id];
    assert(j[0] == id);
    assert forall|q: int| #[trigger] removed_at(j, key).contains(q) <==> (key == position_key(id.position) && q == id.item_index) by {
        if removed_at(j, key).contains(q) {
            let k = choose|k: int| 0 <= k < j.len() && position_key(#[trigger] j[k].position) == key && j[k].item_index == q;
            assert(k == 0);
        }
        if key == position_key(id.position) && q == id.item_index {
            assert(position_key(j[0].position) == key && j[0].item_index == q);
        }
    }
}


/// A journal entry is acceptable on its own terms: it names the loaded revision, an existing tile
/// item list and an index inside it, and no earlier entry names the same item.
pub open spec fn removal_acceptable(m: WorldMapView, s: Seq<WorldMapItemSourceIdentity>, k: int) -> bool {
    let e = s[k];
    &&& e.map_revision.0 == revision_of(m)
    &&& m.tile_items.contains_key(position_key(e.position))
    &&& (e.item_index as int) < m.tile_items[position_key(e.position)].len()
    &&& forall|j: int| 0 <= j < k ==> !((#[trigger] s[j]).position == e.position && s[j].item_index == e.item_index)
}

/// A removal journal is accepted exactly when every entry is acceptable; an accepted journal
/// leaves the same tiles, each with its items in their order minus exactly the listed indices.
pub proof fn law_journal_acceptance(m: WorldMapView, s: Seq<WorldMapItemSourceIdentity>)
    ensures
        journal_fault(m, s, s.len() as int) is None <==> forall|k: int| 0 <= k < s.len() ==> removal_acceptable(m, s, k),
        items_after_removals(m.tile_items, s).dom() == m.tile_items.dom(),
        forall|key: (u16, u16, u8)| #[trigger] m.tile_items.contains_key(key)
            ==> items_after_removals(m.tile_items, s)[key] == kept_from(m.tile_items[key], removed_at(s, key), 0),
{
    lemma_journal_fault_none(m, s, s.len() as int);
    assert(items_after_removals(m.tile_items, s).dom() =~= m.tile_items.dom());
}

proof fn lemma_journal_fault_none(m: WorldMapView, s: Seq<WorldMapItemSourceIdentity>, n: int)
    requires
        0 <= n <= s.len(),
    ensures
        journal_fault(m, s, n) is None <==> forall|k: int| 0 <= k < n ==> removal_acceptable(m, s, k),
    decreases n,
{
    if n > 0 {
        lemma_journal_fault_none(m, s, n - 1);
        assert(removal_fault(m, s, n - 1) is None <==> removal_acceptable(m, s, n - 1));
    }
}

} // verus!
