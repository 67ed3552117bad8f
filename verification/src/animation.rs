//! Stepping through the frames of sprite animations.

use vstd::prelude::*;
use crate::roster::AnimationIndices;

verus! {

/// What the player is doing, which selects the strip of frames shown.
#[derive(Clone, Copy, Debug, PartialEq, Eq, Structural)]
pub enum PlayerState {
    Idle,
    Run,
}

/// Frames in each strip of the player's sheet.
pub const PLAYER_FRAMES: usize = 4;

impl PlayerState {
    /// The first frame of the strip shown in this state.
    pub open spec fn base_frame(&self) -> usize {
        match self {
            PlayerState::Idle => 0,
            PlayerState::Run => 4,
        }
    }
}

/// The frame of the player that follows `index` in `state`: the frames of a
/// strip follow one another and start over after the fourth.
pub fn next_player_frame(state: PlayerState, index: usize) -> (next: usize)
    ensures
        next == state.base_frame() + ((index + 1) % 4),
{
    let base: usize = match state {
        PlayerState::Idle => 0,
        PlayerState::Run => 4,
    };
    let step: usize = if index == usize::MAX {
        0
    } else {
        (index + 1) % PLAYER_FRAMES
    };
    assert(usize::MAX == 0xffff_ffff || usize::MAX == 0xffff_ffff_ffff_ffff);
    base + step
}

/// The frame of a hit effect that follows `index`, or nothing when the
/// effect has shown its last frame and goes away.
pub fn next_hit_frame(frames: &AnimationIndices, index: usize) -> (next: Option<usize>)
    ensures
        next == if index == frames.last || index == usize::MAX {
            None
        } else {
            Some((index + 1) as usize)
        },
{
    if index == frames.last || index == usize::MAX {
        None
    } else {
        Some(index + 1)
    }
}

} // verus!
