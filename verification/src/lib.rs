//! A turn-based dungeon-crawler core: procedural level generation, a
//! component-based entity model, deterministic combat and progression,
//! an item and equipment system, per-turn monster decisions, and a
//! persistence codec for whole sessions.
//!
//! Rendering, input polling and the field-of-view computation are external
//! collaborators: the library consumes a precomputed visibility grid and
//! hands back plain values for a front end to draw.

pub mod codec;
pub mod color;
pub mod game;
pub mod item;
pub mod magic;
pub mod map;
pub mod message;
pub mod monster;
pub mod monster_ai;
pub mod object;
pub mod rng;
pub mod textfmt;

use vstd::prelude::*;

verus! {

/// The smaller of two mathematical integers.
pub open spec fn math_min(a: int, b: int) -> int {
    if a < b {
        a
    } else {
        b
    }
}

/// The larger of two mathematical integers.
pub open spec fn math_max(a: int, b: int) -> int {
    if a < b {
        b
    } else {
        a
    }
}

} // verus!
