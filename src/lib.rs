//! Decision engine of a tile-grid platformer agent: deterministic random
//! numbers, the tile movement catalog and the steering along its moves, the
//! movement graph with its distance maps, the bullet forecaster, and the
//! per-tick planner that chooses where each controlled unit goes.
//!
//! Continuous quantities are integers: lengths in micro-tiles, times in
//! microseconds or hundredths of a tick, speeds in micro-tiles per second.
use vstd::prelude::*;

pub mod bullets;
pub mod control;
pub mod fnv_hash;
pub mod graph;
pub mod level;
pub mod path;
pub mod planner;
pub mod properties;
pub mod rand;
pub mod strategy;
pub mod world;

