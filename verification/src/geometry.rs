//! Tile positions, cardinal steps and distances.

use vstd::prelude::*;
use crate::error::CoreError;

verus! {

#[derive(Debug, Clone, Copy, PartialEq, Eq, PartialOrd, Ord, Hash, Structural)]
pub struct Position {
    pub x: u16,
    pub y: u16,
    pub z: u8,
}

#[derive(Debug, Clone, Copy, PartialEq, Eq, Structural)]
pub enum CardinalDirection {
    North,
    East,
    South,
    West,
}

/// Absolute difference of two integers.
pub open spec fn diff(a: int, b: int) -> int {
    if a >= b { a - b } else { b - a }
}

/// Exact `u16` absolute difference.
pub fn abs_diff_u16(a: u16, b: u16) -> (r: u16)
    ensures
        r == diff(a as int, b as int),
{
    if a >= b { a - b } else { b - a }
}

/// Exact `u8` absolute difference.
pub fn abs_diff_u8(a: u8, b: u8) -> (r: u8)
    ensures
        r == diff(a as int, b as int),
{
    if a >= b { a - b } else { b - a }
}

/// Chebyshev (king-move) distance on one floor, ignoring the floor coordinate.
pub open spec fn chebyshev(a: Position, b: Position) -> int {
    let dx = diff(a.x as int, b.x as int);
    let dy = diff(a.y as int, b.y as int);
    if dx >= dy { dx } else { dy }
}

/// The ordered key of a position, used to index position-keyed tables.
pub open spec fn position_key(p: Position) -> (u16, u16, u8) {
    (p.x, p.y, p.z)
}

/// Recovers the position of a table key.
pub open spec fn key_position(k: (u16, u16, u8)) -> Position {
    Position { x: k.0, y: k.1, z: k.2 }
}

pub open spec fn spec_adjacent(a: Position, b: Position) -> bool {
    &&& a.z == b.z
    &&& diff(a.x as int, b.x as int) <= 1
    &&& diff(a.y as int, b.y as int) <= 1
    &&& a != b
}

/// The position one step away in a direction, when it stays inside the `u16` grid.
pub open spec fn spec_step(p: Position, d: CardinalDirection) -> Option<Position> {
    match d {
        CardinalDirection::North => if p.y >= 1 { Some(Position { y: (p.y - 1) as u16, ..p }) } else { None },
        CardinalDirection::East => if p.x < u16::MAX { Some(Position { x: (p.x + 1) as u16, ..p }) } else { None },
        CardinalDirection::South => if p.y < u16::MAX { Some(Position { y: (p.y + 1) as u16, ..p }) } else { None },
        CardinalDirection::West => if p.x >= 1 { Some(Position { x: (p.x - 1) as u16, ..p }) } else { None },
    }
}

pub open spec fn opposite(d: CardinalDirection) -> CardinalDirection {
    match d {
        CardinalDirection::North => CardinalDirection::South,
        CardinalDirection::East => CardinalDirection::West,
        CardinalDirection::South => CardinalDirection::North,
        CardinalDirection::West => CardinalDirection::East,
    }
}

impl Position {
    pub fn key(&self) -> (r: (u16, u16, u8))
        ensures
            r == position_key(*self),
    {
        (self.x, self.y, self.z)
    }

    pub fn from_key(k: (u16, u16, u8)) -> (r: Position)
        ensures
            r == key_position(k),
    {
        Position { x: k.0, y: k.1, z: k.2 }
    }

    /// True for the eight surrounding tiles on the same floor.
    pub fn is_adjacent_to(self, other: Position) -> (r: bool)
        ensures
            r == spec_adjacent(self, other),
    {
        self.z == other.z && abs_diff_u16(self.x, other.x) <= 1 && abs_diff_u16(self.y, other.y) <= 1
            && !(self.x == other.x && self.y == other.y)
    }

    pub fn step(self, direction: CardinalDirection) -> (r: Result<Position, CoreError>)
        ensures
            match spec_step(self, direction) {
                Some(p) => r == Ok::<Position, CoreError>(p),
                None => r == Err::<Position, CoreError>(CoreError::MapBoundary { position: self }),
            },
    {
        match direction {
            CardinalDirection::North => {
                if self.y >= 1 { Ok(Position { x: self.x, y: self.y - 1, z: self.z }) } else { Err(CoreError::MapBoundary { position: self }) }
            },
            CardinalDirection::East => {
                if self.x < u16::MAX { Ok(Position { x: self.x + 1, y: self.y, z: self.z }) } else { Err(CoreError::MapBoundary { position: self }) }
            },
            CardinalDirection::South => {
                if self.y < u16::MAX { Ok(Position { x: self.x, y: self.y + 1, z: self.z }) } else { Err(CoreError::MapBoundary { position: self }) }
            },
            CardinalDirection::West => {
                if self.x >= 1 { Ok(Position { x: self.x - 1, y: self.y, z: self.z }) } else { Err(CoreError::MapBoundary { position: self }) }
            },
        }
    }
}

/// Adjacency is symmetric and irreflexive.
pub proof fn lemma_adjacency_symmetric_irreflexive(a: Position, b: Position)
    ensures
        spec_adjacent(a, b) == spec_adjacent(b, a),
        !spec_adjacent(a, a),
{
}

/// A successful cardinal step lands on an adjacent tile, and stepping back in the opposite
/// direction returns to the starting tile.
pub proof fn lemma_step_is_adjacent_and_reversible(p: Position, d: CardinalDirection)
    requires
        spec_step(p, d) is Some,
    ensures
        spec_adjacent(p, spec_step(p, d)->0),
        spec_step(spec_step(p, d)->0, opposite(d)) == Some(p),
{
}

/// Keys of distinct positions are distinct, so position-keyed tables lose nothing.
pub proof fn lemma_position_key_roundtrip(p: Position)
    ensures
        key_position(position_key(p)) == p,
{
}

} // verus!
