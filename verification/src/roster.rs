//! Enemy kinds, their sprite frames and their base statistics.

use vstd::prelude::*;
use crate::text::{bytes_equal, bytes_spell_ignoring_case, spells_ignoring_case, str_bytes, text_bytes};

verus! {

/// The race of an enemy, which selects its sprite rows.
#[derive(Clone, Copy, Debug, PartialEq, Eq, Structural)]
pub enum EnemyType {
    Undead,
    Orc,
    Demon,
}

/// The first and last frame of a looping sprite animation.
#[derive(Clone, Copy, Debug, PartialEq, Eq, Structural)]
pub struct AnimationIndices {
    pub first: usize,
    pub last: usize,
}

/// Base statistics of one race at one power tier.
#[derive(Clone, Copy, Debug, PartialEq, Eq, Structural)]
pub struct EnemyStats {
    pub health: u32,
    pub damage: u32,
}

/// The statistics of one power tier, under the tier's key.
#[derive(Clone, Debug)]
pub struct LevelStats {
    pub level: String,
    pub stats: EnemyStats,
}

/// The power tiers of one race. Where a key occurs twice, the first entry
/// counts.
#[derive(Clone, Debug)]
pub struct EnemyLevels {
    pub levels: Vec<LevelStats>,
}

/// The statistics table: every race with its power tiers.
#[derive(Clone, Debug)]
pub struct EnemiesData {
    pub undead: EnemyLevels,
    pub orc: EnemyLevels,
    pub demon: EnemyLevels,
}

/// Frames in one animation strip.
pub const FRAMES_PER_STRIP: usize = 4;

/// `Undead`, as config files spell it.
pub open spec fn name_undead() -> Seq<u8> {
    seq![0x55u8, 0x6e, 0x64, 0x65, 0x61, 0x64]
}

/// `Orc`, as config files spell it.
pub open spec fn name_orc() -> Seq<u8> {
    seq![0x4fu8, 0x72, 0x63]
}

/// `Demon`, as config files spell it.
pub open spec fn name_demon() -> Seq<u8> {
    seq![0x44u8, 0x65, 0x6d, 0x6f, 0x6e]
}

/// `undead` in lower case, the key of the statistics table.
pub open spec fn key_undead() -> Seq<u8> {
    seq![0x75u8, 0x6e, 0x64, 0x65, 0x61, 0x64]
}

/// `orc` in lower case, the key of the statistics table.
pub open spec fn key_orc() -> Seq<u8> {
    seq![0x6fu8, 0x72, 0x63]
}

/// `demon` in lower case, the key of the statistics table.
pub open spec fn key_demon() -> Seq<u8> {
    seq![0x64u8, 0x65, 0x6d, 0x6f, 0x6e]
}

/// The race that a name selects for display. The match is exact; a name that
/// is none of the three is shown as undead.
pub open spec fn race_of(name: Seq<u8>) -> EnemyType {
    if name == name_orc() {
        EnemyType::Orc
    } else if name == name_demon() {
        EnemyType::Demon
    } else {
        EnemyType::Undead
    }
}

/// The power tier that a key names: 1 to 5 for the keys `"1"` to `"5"`, and 0
/// for every other key.
pub open spec fn tier_of(level: Seq<u8>) -> nat {
    if level.len() == 1 && 0x31 <= level[0] <= 0x35 {
        (level[0] - 0x30) as nat
    } else {
        0
    }
}

/// The strip of the sprite sheet, counted in strips of four frames, that holds
/// a race at a tier from 1 to 5.
pub open spec fn strip_of(race: EnemyType, tier: nat) -> nat {
    match race {
        EnemyType::Undead => if tier == 1 {
            13
        } else if tier == 2 {
            14
        } else if tier == 3 {
            12
        } else if tier == 4 {
            11
        } else {
            10
        },
        EnemyType::Orc => if tier == 1 {
            5
        } else if tier == 2 {
            9
        } else if tier == 3 {
            8
        } else if tier == 4 {
            6
        } else {
            7
        },
        EnemyType::Demon => if tier == 1 {
            2
        } else if tier == 2 {
            4
        } else if tier == 3 {
            1
        } else if tier == 4 {
            3
        } else {
            0
        },
    }
}

/// The frames of a race at the tier that `level` names. A key that names no
/// tier gives the single frame 0.
pub open spec fn frames_of(race: EnemyType, level: Seq<u8>) -> AnimationIndices {
    let tier = tier_of(level);
    if tier == 0 {
        AnimationIndices { first: 0, last: 0 }
    } else {
        AnimationIndices {
            first: (strip_of(race, tier) * 4) as usize,
            last: (strip_of(race, tier) * 4 + 3) as usize,
        }
    }
}

/// The position of the first entry of `levels` under the key `level`, or the
/// number of entries when there is none.
pub open spec fn level_position(levels: Seq<LevelStats>, level: Seq<u8>) -> int
    decreases levels.len(),
{
    if levels.len() == 0 {
        0
    } else if text_bytes(levels[0].level@) == level {
        0
    } else {
        1 + level_position(levels.drop_first(), level)
    }
}

/// The statistics that `levels` holds under the key `level`.
pub open spec fn level_stats(levels: Seq<LevelStats>, level: Seq<u8>) -> Option<EnemyStats> {
    let at = level_position(levels, level);
    if at < levels.len() {
        Some(levels[at].stats)
    } else {
        None
    }
}

/// The health of an enemy spawned in the given cycle: the base health times
/// one plus six fifths of the cycle index, rounded down.
pub open spec fn spec_scaled_health(base: nat, cycle: nat) -> nat {
    base * (1 + (6 * cycle) / 5)
}

impl EnemyType {
    /// The race that a name from a config file selects for display.
    pub fn get_race(race: &str) -> (kind: EnemyType)
        ensures
            kind == race_of(text_bytes(race@)),
    {
        let name = str_bytes(race);
        let orc: [u8; 3] = [0x4f, 0x72, 0x63];
        let demon: [u8; 5] = [0x44, 0x65, 0x6d, 0x6f, 0x6e];
        assert(orc@ =~= name_orc());
        assert(demon@ =~= name_demon());
        if bytes_equal(name, orc.as_slice()) {
            EnemyType::Orc
        } else if bytes_equal(name, demon.as_slice()) {
            EnemyType::Demon
        } else {
            EnemyType::Undead
        }
    }

    /// The strip of the sprite sheet that holds this race at `tier`.
    pub fn strip(&self, tier: u8) -> (strip: usize)
        requires
            1 <= tier <= 5,
        ensures
            strip == strip_of(*self, tier as nat),
    {
        match self {
            EnemyType::Undead => match tier {
                1 => 13,
                2 => 14,
                3 => 12,
                4 => 11,
                _ => 10,
            },
            EnemyType::Orc => match tier {
                1 => 5,
                2 => 9,
                3 => 8,
                4 => 6,
                _ => 7,
            },
            EnemyType::Demon => match tier {
                1 => 2,
                2 => 4,
                3 => 1,
                4 => 3,
                _ => 0,
            },
        }
    }

    /// The animation frames of this race at the power tier `level`.
    pub fn get_animation_indicies(&self, level: &str) -> (frames: AnimationIndices)
        ensures
            frames == frames_of(*self, text_bytes(level@)),
    {
        let key = str_bytes(level);
        if key.len() == 1 && 0x31 <= key[0] && key[0] <= 0x35 {
            let first: usize = self.strip(key[0] - 0x30) * FRAMES_PER_STRIP;
            AnimationIndices { first, last: first + FRAMES_PER_STRIP - 1 }
        } else {
            AnimationIndices { first: 0, last: 0 }
        }
    }
}

impl AnimationIndices {
    /// The frame that follows `index`: the next one, or the first again after
    /// the last.
    pub fn next_frame(&self, index: usize) -> (next: usize)
        ensures
            next == if index == self.last || index == usize::MAX {
                self.first
            } else {
                (index + 1) as usize
            },
    {
        if index == self.last || index == usize::MAX {
            self.first
        } else {
            index + 1
        }
    }
}

impl EnemyLevels {
    /// The statistics of the power tier `level`, if the race has that tier.
    pub fn get(&self, level: &str) -> (found: Option<&EnemyStats>)
        ensures
            match found {
                Some(stats) => level_stats(self.levels@, text_bytes(level@)) == Some(*stats),
                None => level_stats(self.levels@, text_bytes(level@)).is_none(),
            },
    {
        let key = str_bytes(level);
        let mut i: usize = 0;
        assert(self.levels@.subrange(0, self.levels@.len() as int) =~= self.levels@);
        while i < self.levels.len()
            invariant
                i <= self.levels@.len(),
                key@ == text_bytes(level@),
                level_position(self.levels@, key@) == i + level_position(
                    self.levels@.subrange(i as int, self.levels@.len() as int),
                    key@,
                ),
            decreases self.levels@.len() - i,
        {
            let ghost rest = self.levels@.subrange(i as int, self.levels@.len() as int);
            assert(rest[0] == self.levels@[i as int]);
            assert(rest.drop_first() =~= self.levels@.subrange(
                i + 1,
                self.levels@.len() as int,
            ));
            if bytes_equal(str_bytes(self.levels[i].level.as_str()), key) {
                return Some(&self.levels[i].stats);
            }
            i += 1;
        }
        proof {
            assert(self.levels@.subrange(i as int, self.levels@.len() as int).len() == 0);
        }
        None
    }
}

impl EnemiesData {
    /// The base statistics of `race` at the power tier `level`. The race is
    /// matched without regard to the case of its letters; an unknown race or
    /// tier gives `None`.
    pub fn get_enemy_stats(&self, race: &str, level: &str) -> (found: Option<&EnemyStats>)
        ensures
            match found {
                Some(stats) => self.stats_of(text_bytes(race@), text_bytes(level@)) == Some(
                    *stats,
                ),
                None => self.stats_of(text_bytes(race@), text_bytes(level@)).is_none(),
            },
    {
        let name = str_bytes(race);
        let undead: [u8; 6] = [0x75, 0x6e, 0x64, 0x65, 0x61, 0x64];
        let orc: [u8; 3] = [0x6f, 0x72, 0x63];
        let demon: [u8; 5] = [0x64, 0x65, 0x6d, 0x6f, 0x6e];
        assert(undead@ =~= key_undead());
        assert(orc@ =~= key_orc());
        assert(demon@ =~= key_demon());
        if bytes_spell_ignoring_case(name, undead.as_slice()) {
            self.undead.get(level)
        } else if bytes_spell_ignoring_case(name, orc.as_slice()) {
            self.orc.get(level)
        } else if bytes_spell_ignoring_case(name, demon.as_slice()) {
            self.demon.get(level)
        } else {
            None
        }
    }

    /// The base statistics that the table holds for a race and a tier.
    pub open spec fn stats_of(&self, race: Seq<u8>, level: Seq<u8>) -> Option<EnemyStats> {
        if spells_ignoring_case(race, key_undead()) {
            level_stats(self.undead.levels@, level)
        } else if spells_ignoring_case(race, key_orc()) {
            level_stats(self.orc.levels@, level)
        } else if spells_ignoring_case(race, key_demon()) {
            level_stats(self.demon.levels@, level)
        } else {
            None
        }
    }
}

/// The health of an enemy spawned in `cycle`, from its base health. Only
/// health grows with the cycle; damage stays at its base value.
pub fn scaled_health(base: u32, cycle: u64) -> (health: u128)
    ensures
        health == spec_scaled_health(base as nat, cycle as nat),
        cycle == 0 ==> health == base,
{
    let factor: u128 = 1 + (6 * (cycle as u128)) / 5;
    assert(base as u128 * factor <= 0xffff_ffff * 0x2_0000_0000_0000_0000) by (nonlinear_arith)
        requires
            base <= 0xffff_ffff,
            factor <= 0x2_0000_0000_0000_0000,
    ;
    assert(factor == 1 ==> base as u128 * factor == base) by (nonlinear_arith);
    base as u128 * factor
}

/// An enemy of a later cycle is never weaker than one of an earlier cycle.
pub proof fn lemma_scaled_health_grows(base: nat, earlier: nat, later: nat)
    requires
        earlier <= later,
    ensures
        spec_scaled_health(base, earlier) <= spec_scaled_health(base, later),
{
    assert((6 * earlier) / 5 <= (6 * later) / 5);
    assert(base * (1 + (6 * earlier) / 5) <= base * (1 + (6 * later) / 5)) by (nonlinear_arith)
        requires
            (6 * earlier) / 5 <= (6 * later) / 5,
    ;
}

} // verus!
