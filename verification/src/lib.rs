//! Deterministic domain primitives for Forgotten Engine, verified with Verus.

pub mod error;
pub mod geometry;
pub mod items;
pub mod lifecycle;
pub mod progression;
pub mod conditions;
pub mod combat;
pub mod text;
pub mod keys;
pub mod interaction;
pub mod creatures;
pub mod spawns;
pub mod map;
pub mod commands;
pub mod world;
