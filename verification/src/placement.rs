//! Where new enemies appear: at a random angle and a random distance in a
//! ring around the player, far enough to be off screen and near enough to
//! arrive.
//!
//! A place is given relative to the player, as an angle in thousandths of a
//! degree and a distance in world units.

use rand::Rng;
use vstd::prelude::*;

verus! {

/// The least distance from the player at which an enemy appears.
pub const SPAWN_INNER_RADIUS: u32 = 1000;

/// The distance from the player that no new enemy reaches.
pub const SPAWN_OUTER_RADIUS: u32 = 5000;

/// A full turn in thousandths of a degree.
pub const FULL_TURN: u32 = 360_000;

/// A place relative to the player: `angle` thousandths of a degree from the
/// x axis, `distance` world units away.
#[derive(Clone, Copy, Debug, PartialEq, Eq, Structural)]
pub struct SpawnOffset {
    pub angle: u32,
    pub distance: u32,
}

impl SpawnOffset {
    /// Whether the place lies in the ring where enemies appear.
    pub open spec fn in_ring(&self) -> bool {
        &&& self.angle < FULL_TURN
        &&& SPAWN_INNER_RADIUS <= self.distance < SPAWN_OUTER_RADIUS
    }

    /// Whether the place lies in the ring where enemies appear.
    pub fn is_in_ring(&self) -> (inside: bool)
        ensures
            inside == self.in_ring(),
    {
        self.angle < FULL_TURN && SPAWN_INNER_RADIUS <= self.distance && self.distance
            < SPAWN_OUTER_RADIUS
    }
}

/// Draws a number with `rand`'s `Rng::gen_range` on the thread-local
/// generator. Trusted: the draw lies in the half-open range from `low` to
/// `high`, which is all that holds of every draw. An empty range makes the
/// generator panic, so it is excluded.
#[verifier::external_body]
fn random_in_range(low: u32, high: u32) -> (drawn: u32)
    requires
        low < high,
    ensures
        low <= drawn < high,
{
    rand::thread_rng().gen_range(low..high)
}

/// Draws a place in the ring around the player.
pub fn random_spawn_offset() -> (offset: SpawnOffset)
    ensures
        offset.in_ring(),
{
    let angle: u32 = random_in_range(0, FULL_TURN);
    let distance: u32 = random_in_range(SPAWN_INNER_RADIUS, SPAWN_OUTER_RADIUS);
    SpawnOffset { angle, distance }
}

/// Draws a place in the ring for each of `count` new enemies.
pub fn random_spawn_offsets(count: u32) -> (offsets: Vec<SpawnOffset>)
    ensures
        offsets@.len() == count,
        forall|i: int| 0 <= i < offsets@.len() ==> (#[trigger] offsets@[i]).in_ring(),
{
    let mut offsets: Vec<SpawnOffset> = Vec::new();
    let mut drawn: u32 = 0;
    while drawn < count
        invariant
            drawn <= count,
            offsets@.len() == drawn,
            forall|i: int| 0 <= i < offsets@.len() ==> (#[trigger] offsets@[i]).in_ring(),
        decreases count - drawn,
    {
        offsets.push(random_spawn_offset());
        drawn += 1;
    }
    offsets
}

} // verus!
