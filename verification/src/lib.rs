//! Wave spawning and chained damage for an arcade combat loop.
//!
//! All quantities are integers. Times are milliseconds, positions are whole
//! world units, and health and damage share one unit chosen by the caller.

pub mod timecode;
pub mod text;
pub mod roster;
pub mod schedule;
pub mod tracker;
pub mod spawner;
pub mod targeting;
pub mod damage;
pub mod placement;
pub mod animation;
pub mod heroes;
