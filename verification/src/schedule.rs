//! The spawn schedule: directives, the cycle they repeat in, and the quota of
//! each directive at a point in time.
//!
//! Times are milliseconds. A schedule repeats every `cycle_length`, which is
//! the latest end of any directive. In cycle `c` a directive is active from
//! `start_offset + cycle_length * c` to `end_offset + cycle_length * c`, both
//! included, and its quota rises linearly from nothing to `count` over that
//! window.

use uuid::Uuid;
use vstd::prelude::*;
use vstd::arithmetic::div_mod::{
    lemma_div_is_ordered, lemma_div_multiples_vanish, lemma_div_nonincreasing,
    lemma_div_pos_is_pos, lemma_fundamental_div_mod,
};
use vstd::arithmetic::mul::lemma_mul_inequality;
use crate::text::{str_bytes, text_bytes};
use crate::timecode::{parse_time_code, time_code_seconds};

verus! {

/// Milliseconds in one second.
pub const MILLIS_PER_SECOND: u64 = 1000;

/// One spawn rule as the configuration gives it, with its window written as
/// `MM:SS` time codes.
#[derive(Clone, Debug)]
pub struct EnemySpawn {
    pub id: u64,
    pub race: String,
    pub power: String,
    pub count: u32,
    pub start_time: String,
    pub end_time: String,
}

/// The configured list of spawn rules.
#[derive(Clone, Debug)]
pub struct SpawnData {
    pub enemy_spawns: Vec<EnemySpawn>,
}

/// One spawn rule, ready for evaluation: `count` units of a race and power
/// tier, released over the window from `start_offset` to `end_offset` of each
/// cycle. Its `id` tells it apart from every other directive of its schedule.
#[derive(Clone, Debug)]
pub struct Directive {
    pub id: u64,
    pub race: String,
    pub power: String,
    pub count: u32,
    pub start_offset: u64,
    pub end_offset: u64,
}

/// Why a list of spawn rules makes no schedule.
#[derive(Clone, Copy, Debug, PartialEq, Eq, Structural)]
pub enum ScheduleError {
    /// The list holds no rule.
    Empty,
    /// Every rule ends at time zero, so a cycle would have no length.
    ZeroLength,
    /// Two rules carry the same id.
    DuplicateId,
}

/// A list of directives with the length of the cycle in which they repeat.
#[derive(Clone, Debug)]
pub struct SpawnSchedule {
    pub directives: Vec<Directive>,
    pub cycle_length: u64,
}

/// The offset in milliseconds that a time code denotes.
pub open spec fn time_code_millis(code: Seq<char>) -> nat {
    time_code_seconds(text_bytes(code)) * 1000
}

/// Whether `d` is the directive that the rule `spawn` becomes.
pub open spec fn directive_of(spawn: EnemySpawn, d: Directive) -> bool {
    &&& d.id == spawn.id
    &&& d.race@ == spawn.race@
    &&& d.power@ == spawn.power@
    &&& d.count == spawn.count
    &&& d.start_offset == time_code_millis(spawn.start_time@)
    &&& d.end_offset == time_code_millis(spawn.end_time@)
}

/// Whether `after` is the rule `before` under another id.
pub open spec fn same_rule(before: EnemySpawn, after: EnemySpawn) -> bool {
    &&& after.race@ == before.race@
    &&& after.power@ == before.power@
    &&& after.count == before.count
    &&& after.start_time@ == before.start_time@
    &&& after.end_time@ == before.end_time@
}

/// Whether no two of `rules` carry the same id.
pub open spec fn rules_distinct(rules: Seq<EnemySpawn>) -> bool {
    forall|i: int, j: int|
        0 <= i < j < rules.len() ==> (#[trigger] rules[i]).id != (#[trigger] rules[j]).id
}

/// Whether no two of `directives` carry the same id.
pub open spec fn distinct_ids(directives: Seq<Directive>) -> bool {
    forall|i: int, j: int|
        0 <= i < j < directives.len() ==> (#[trigger] directives[i]).id != (
        #[trigger] directives[j]).id
}

/// Whether every rule ends at time zero.
pub open spec fn all_end_at_zero(rules: Seq<EnemySpawn>) -> bool {
    forall|i: int| 0 <= i < rules.len() ==> time_code_millis((#[trigger] rules[i]).end_time@) == 0
}

/// The latest end offset among `directives`, zero when there are none.
pub open spec fn latest_end(directives: Seq<Directive>) -> nat
    decreases directives.len(),
{
    if directives.len() == 0 {
        0
    } else {
        let rest = latest_end(directives.drop_last());
        if directives.last().end_offset > rest {
            directives.last().end_offset as nat
        } else {
            rest
        }
    }
}

/// How many units of a directive should exist at `now`, when its window runs
/// from `start` to `end`: all `count` of them from `end` on, none up to
/// `start`, and in between the share of `count` that the elapsed part of the
/// window makes, rounded down.
pub open spec fn spawn_quota(count: nat, start: int, end: int, now: int) -> nat {
    if now >= end {
        count
    } else if now <= start {
        0
    } else {
        ((count * (now - start)) / (end - start)) as nat
    }
}

/// The quota never exceeds the count.
pub proof fn lemma_quota_bounded(count: nat, start: int, end: int, now: int)
    ensures
        spawn_quota(count, start, end, now) <= count,
{
    if start < now < end {
        let a = now - start;
        let d = end - start;
        lemma_mul_inequality(a, d, count as int);
        assert(count * a <= count * d) by (nonlinear_arith)
            requires
                a * count <= d * count,
        ;
        lemma_div_is_ordered(count * a, count * d, d);
        lemma_div_multiples_vanish(count as int, d);
        assert(count * d == d * count) by (nonlinear_arith);
    }
}

/// The quota never falls as time passes.
pub proof fn lemma_quota_monotonic(count: nat, start: int, end: int, earlier: int, later: int)
    requires
        earlier <= later,
    ensures
        spawn_quota(count, start, end, earlier) <= spawn_quota(count, start, end, later),
{
    lemma_quota_bounded(count, start, end, earlier);
    if later < end && start < earlier {
        let d = end - start;
        lemma_mul_inequality(earlier - start, later - start, count as int);
        assert(count * (earlier - start) <= count * (later - start)) by (nonlinear_arith)
            requires
                (earlier - start) * count <= (later - start) * count,
        ;
        lemma_div_is_ordered(count * (earlier - start), count * (later - start), d);
    } else if later < end {
        assert(spawn_quota(count, start, end, earlier) == 0);
    }
}

/// The linear ramp reaches exactly `count` at the end of a window that has a
/// length, so the quota is continuous there.
pub proof fn lemma_quota_ramp_reaches_count(count: nat, start: int, end: int)
    requires
        start < end,
    ensures
        (count * (end - start)) / (end - start) == count,
{
    lemma_div_multiples_vanish(count as int, end - start);
    assert(count * (end - start) == (end - start) * count) by (nonlinear_arith);
}

/// The quota depends only on where `now` lies relative to the window.
pub proof fn lemma_quota_shift(count: nat, start: int, end: int, now: int, shift: int)
    ensures
        spawn_quota(count, start + shift, end + shift, now + shift) == spawn_quota(
            count,
            start,
            end,
            now,
        ),
{
    assert((now + shift) - (start + shift) == now - start);
    assert((end + shift) - (start + shift) == end - start);
}

/// The quota of `spawn` at `current` for the window from `start` to `end`.
pub fn calculate_spawn_count(spawn: &Directive, start: u64, end: u64, current: u64) -> (total: u32)
    ensures
        total == spawn_quota(spawn.count as nat, start as int, end as int, current as int),
        total <= spawn.count,
        current >= end ==> total == spawn.count,
{
    if current >= end {
        spawn.count
    } else if current <= start {
        0
    } else {
        let elapsed: u128 = (current - start) as u128;
        let window: u128 = (end - start) as u128;
        proof {
            lemma_quota_bounded(spawn.count as nat, start as int, end as int, current as int);
            assert(spawn.count as u128 * elapsed <= 0xffff_ffff * 0xffff_ffff_ffff_ffff)
                by (nonlinear_arith)
                requires
                    spawn.count <= 0xffff_ffff,
                    elapsed <= 0xffff_ffff_ffff_ffff,
            ;
        }
        ((spawn.count as u128 * elapsed) / window) as u32
    }
}

/// Draws an id with `uuid`'s `Uuid::new_v4` and takes the upper half of it,
/// as `Uuid::as_u64_pair` gives it. Trusted, and nothing is claimed of the
/// id: it is random, so two draws may even agree.
#[verifier::external_body]
fn fresh_id() -> (id: u64) {
    Uuid::new_v4().as_u64_pair().0
}

/// Whether no two of `directives` carry the same id.
pub fn has_distinct_ids(directives: &Vec<Directive>) -> (distinct: bool)
    ensures
        distinct == distinct_ids(directives@),
{
    let mut i: usize = 0;
    while i < directives.len()
        invariant
            i <= directives@.len(),
            forall|a: int, b: int|
                0 <= a < b < i ==> (#[trigger] directives@[a]).id != (#[trigger] directives@[b]).id,
        decreases directives@.len() - i,
    {
        let mut j: usize = 0;
        while j < i
            invariant
                j <= i < directives@.len(),
                forall|a: int| 0 <= a < j ==> (#[trigger] directives@[a]).id != directives@[i as int].id,
            decreases i - j,
        {
            if directives[j].id == directives[i].id {
                return false;
            }
            j += 1;
        }
        i += 1;
    }
    true
}

impl SpawnData {
    /// Gives every rule a freshly drawn id. The ids are random: whether they
    /// are distinct is for `SpawnSchedule::load` to find out.
    pub fn assign_ids(&mut self)
        ensures
            final(self).enemy_spawns@.len() == old(self).enemy_spawns@.len(),
            forall|i: int|
                0 <= i < old(self).enemy_spawns@.len() ==> same_rule(
                    old(self).enemy_spawns@[i],
                    #[trigger] final(self).enemy_spawns@[i],
                ),
    {
        let mut ids: Vec<u64> = Vec::new();
        let mut drawn: usize = 0;
        while drawn < self.enemy_spawns.len()
            invariant
                drawn <= self.enemy_spawns@.len(),
                ids@.len() == drawn,
            decreases self.enemy_spawns@.len() - drawn,
        {
            ids.push(fresh_id());
            drawn += 1;
        }
        self.set_ids(&ids);
    }

    /// Gives the rules the ids of `ids`, in order: the first rule the first
    /// id, and so on. Where there are fewer ids than rules, the rules beyond
    /// them keep the ids they have; ids beyond the rules are not used.
    pub fn set_ids(&mut self, ids: &Vec<u64>)
        ensures
            final(self).enemy_spawns@ == with_ids(old(self).enemy_spawns@, ids@),
    {
        let mut renamed: Vec<EnemySpawn> = Vec::new();
        let mut i: usize = 0;
        while i < self.enemy_spawns.len()
            invariant
                i <= self.enemy_spawns@.len(),
                renamed@.len() == i,
                forall|j: int|
                    0 <= j < i ==> #[trigger] renamed@[j] == with_ids(self.enemy_spawns@, ids@)[j],
            decreases self.enemy_spawns@.len() - i,
        {
            let rule = &self.enemy_spawns[i];
            let id: u64 = if i < ids.len() {
                ids[i]
            } else {
                rule.id
            };
            let ghost before = renamed@;
            renamed.push(
                EnemySpawn {
                    id,
                    race: rule.race.clone(),
                    power: rule.power.clone(),
                    count: rule.count,
                    start_time: rule.start_time.clone(),
                    end_time: rule.end_time.clone(),
                },
            );
            assert(forall|j: int| 0 <= j < i ==> renamed@[j] == before[j]);
            i += 1;
        }
        assert(renamed@ =~= with_ids(self.enemy_spawns@, ids@));
        self.enemy_spawns = renamed;
    }
}

/// The rules `rules` under the ids `ids`: each rule that has an id at its
/// position in `ids` carries that id, and is otherwise as it was.
pub open spec fn with_ids(rules: Seq<EnemySpawn>, ids: Seq<u64>) -> Seq<EnemySpawn> {
    Seq::new(
        rules.len(),
        |i: int|
            if i < ids.len() {
                EnemySpawn { id: ids[i], ..rules[i] }
            } else {
                rules[i]
            },
    )
}

impl SpawnSchedule {
    /// A schedule is well formed when its cycle has a length and no two of
    /// its directives carry the same id.
    pub open spec fn wf(&self) -> bool {
        &&& self.cycle_length > 0
        &&& distinct_ids(self.directives@)
    }

    /// Whether a directive of the schedule carries the id `id`.
    pub open spec fn holds(&self, id: u64) -> bool {
        exists|i: int| 0 <= i < self.directives@.len() && (#[trigger] self.directives@[i]).id == id
    }

    /// The position of the directive that carries the id `id`.
    pub open spec fn position_of(&self, id: u64) -> int {
        choose|i: int| 0 <= i < self.directives@.len() && (#[trigger] self.directives@[i]).id == id
    }

    /// The id of a directive leads back to its position.
    pub proof fn lemma_position_of(&self, i: int)
        requires
            self.wf(),
            0 <= i < self.directives@.len(),
        ensures
            self.holds(self.directives@[i].id),
            self.position_of(self.directives@[i].id) == i,
    {
        let id = self.directives@[i].id;
        let at = self.position_of(id);
        assert(self.directives@[at].id == id);
        if at < i {
            assert(self.directives@[at].id != self.directives@[i].id);
        } else if i < at {
            assert(self.directives@[i].id != self.directives@[at].id);
        }
    }

    /// The index of the cycle that `elapsed` lies in.
    pub open spec fn spec_cycle_index(&self, elapsed: int) -> int {
        elapsed / (self.cycle_length as int)
    }

    /// Where the window of directive `i` starts in `cycle`.
    pub open spec fn window_start(&self, i: int, cycle: int) -> int {
        self.directives@[i].start_offset + self.cycle_length * cycle
    }

    /// Where the window of directive `i` ends in `cycle`.
    pub open spec fn window_end(&self, i: int, cycle: int) -> int {
        self.directives@[i].end_offset + self.cycle_length * cycle
    }

    /// Whether `elapsed` lies in the window that directive `i` has in the
    /// cycle of `elapsed`.
    pub open spec fn spec_is_active(&self, i: int, elapsed: int) -> bool {
        let cycle = self.spec_cycle_index(elapsed);
        self.window_start(i, cycle) <= elapsed <= self.window_end(i, cycle)
    }

    /// The quota of directive `i` at `elapsed`, for the window of `cycle`.
    pub open spec fn quota_in_cycle(&self, i: int, cycle: int, elapsed: int) -> nat {
        spawn_quota(
            self.directives@[i].count as nat,
            self.window_start(i, cycle),
            self.window_end(i, cycle),
            elapsed,
        )
    }

    /// The quota of directive `i` at `elapsed`, for the window of the cycle
    /// that `elapsed` lies in.
    pub open spec fn spec_total_to_spawn(&self, i: int, elapsed: int) -> nat {
        self.quota_in_cycle(i, self.spec_cycle_index(elapsed), elapsed)
    }

    /// Builds the schedule of a list of spawn rules. Each rule becomes the
    /// directive at its position, with its time codes read as offsets, and the
    /// cycle is as long as the latest end. A list without rules is refused,
    /// then one whose cycle would have no length, then one in which two rules
    /// carry the same id.
    pub fn load(data: &SpawnData) -> (loaded: Result<SpawnSchedule, ScheduleError>)
        ensures
            match loaded {
                Ok(schedule) => {
                    &&& data.enemy_spawns@.len() > 0
                    &&& !all_end_at_zero(data.enemy_spawns@)
                    &&& rules_distinct(data.enemy_spawns@)
                    &&& schedule.wf()
                    &&& schedule.directives@.len() == data.enemy_spawns@.len()
                    &&& forall|i: int|
                        0 <= i < schedule.directives@.len() ==> directive_of(
                            data.enemy_spawns@[i],
                            #[trigger] schedule.directives@[i],
                        )
                    &&& schedule.cycle_length == latest_end(schedule.directives@)
                },
                Err(ScheduleError::Empty) => data.enemy_spawns@.len() == 0,
                Err(ScheduleError::ZeroLength) => data.enemy_spawns@.len() > 0 && all_end_at_zero(
                    data.enemy_spawns@,
                ),
                Err(ScheduleError::DuplicateId) => {
                    &&& data.enemy_spawns@.len() > 0
                    &&& !all_end_at_zero(data.enemy_spawns@)
                    &&& !rules_distinct(data.enemy_spawns@)
                },
            },
    {
        if data.enemy_spawns.len() == 0 {
            return Err(ScheduleError::Empty);
        }
        let mut directives: Vec<Directive> = Vec::new();
        let mut cycle_length: u64 = 0;
        let mut i: usize = 0;
        while i < data.enemy_spawns.len()
            invariant
                i <= data.enemy_spawns@.len(),
                directives@.len() == i,
                forall|j: int|
                    0 <= j < i ==> directive_of(data.enemy_spawns@[j], #[trigger] directives@[j]),
                cycle_length == latest_end(directives@),
                cycle_length == 0 <==> forall|j: int|
                    0 <= j < i ==> (#[trigger] directives@[j]).end_offset == 0,
            decreases data.enemy_spawns@.len() - i,
        {
            let spawn = &data.enemy_spawns[i];
            let start_offset: u64 = parse_time_code(str_bytes(spawn.start_time.as_str()))
                * MILLIS_PER_SECOND;
            let end_offset: u64 = parse_time_code(str_bytes(spawn.end_time.as_str()))
                * MILLIS_PER_SECOND;
            let directive = Directive {
                id: spawn.id,
                race: spawn.race.clone(),
                power: spawn.power.clone(),
                count: spawn.count,
                start_offset,
                end_offset,
            };
            let ghost before = directives@;
            directives.push(directive);
            assert(directives@.drop_last() =~= before);
            assert(directives@[i as int].end_offset == end_offset);
            assert(forall|j: int| 0 <= j < i ==> directives@[j] == before[j]);
            if end_offset > cycle_length {
                cycle_length = end_offset;
            }
            i += 1;
        }
        if cycle_length == 0 {
            assert forall|j: int| 0 <= j < data.enemy_spawns@.len() implies time_code_millis(
                (#[trigger] data.enemy_spawns@[j]).end_time@,
            ) == 0 by {
                assert(directives@[j].end_offset == 0);
            }
            return Err(ScheduleError::ZeroLength);
        }
        proof {
            let j = choose|j: int| 0 <= j < i && (#[trigger] directives@[j]).end_offset != 0;
            assert(time_code_millis(data.enemy_spawns@[j].end_time@) != 0);
        }
        let distinct: bool = has_distinct_ids(&directives);
        proof {
            if distinct {
                assert forall|a: int, b: int| 0 <= a < b < data.enemy_spawns@.len() implies (
                #[trigger] data.enemy_spawns@[a]).id != (#[trigger] data.enemy_spawns@[b]).id by {
                    assert(directives@[a].id != directives@[b].id);
                }
            } else {
                let (a, b) = choose|a: int, b: int|
                    0 <= a < b < directives@.len() && (#[trigger] directives@[a]).id == (
                    #[trigger] directives@[b]).id;
                assert(data.enemy_spawns@[a].id == data.enemy_spawns@[b].id);
            }
        }
        if !distinct {
            return Err(ScheduleError::DuplicateId);
        }
        Ok(SpawnSchedule { directives, cycle_length })
    }

    /// The index of the cycle that `elapsed` lies in.
    pub fn cycle_index(&self, elapsed: u64) -> (cycle: u64)
        requires
            self.wf(),
        ensures
            cycle == self.spec_cycle_index(elapsed as int),
    {
        elapsed / self.cycle_length
    }

    /// Whether directive `i` is active at `elapsed`.
    pub fn is_active(&self, i: usize, elapsed: u64) -> (active: bool)
        requires
            self.wf(),
            i < self.directives@.len(),
        ensures
            active == self.spec_is_active(i as int, elapsed as int),
    {
        let phase: u64 = elapsed % self.cycle_length;
        proof {
            self.lemma_phase(elapsed as int);
        }
        self.directives[i].start_offset <= phase && phase <= self.directives[i].end_offset
    }

    /// How many units of directive `i` should exist at `elapsed`, by the
    /// window of the current cycle.
    pub fn total_to_spawn(&self, i: usize, elapsed: u64) -> (total: u32)
        requires
            self.wf(),
            i < self.directives@.len(),
        ensures
            total == self.spec_total_to_spawn(i as int, elapsed as int),
            total <= self.directives@[i as int].count,
    {
        let phase: u64 = elapsed % self.cycle_length;
        let directive = &self.directives[i];
        proof {
            self.lemma_phase(elapsed as int);
            lemma_quota_shift(
                directive.count as nat,
                directive.start_offset as int,
                directive.end_offset as int,
                phase as int,
                self.cycle_length * self.spec_cycle_index(elapsed as int),
            );
        }
        calculate_spawn_count(directive, directive.start_offset, directive.end_offset, phase)
    }

    /// A point in time is the start of its cycle plus its phase within it.
    pub proof fn lemma_phase(&self, elapsed: int)
        requires
            self.cycle_length > 0,
        ensures
            elapsed == self.cycle_length * self.spec_cycle_index(elapsed) + elapsed % (
            self.cycle_length as int),
    {
        lemma_fundamental_div_mod(elapsed, self.cycle_length as int);
    }

    /// The cycle index is never negative and never above the elapsed time.
    pub proof fn lemma_cycle_index_bounds(&self, elapsed: int)
        requires
            self.cycle_length > 0,
            0 <= elapsed,
        ensures
            0 <= self.spec_cycle_index(elapsed) <= elapsed,
    {
        lemma_div_pos_is_pos(elapsed, self.cycle_length as int);
        lemma_div_nonincreasing(elapsed, self.cycle_length as int);
    }

    /// The cycle index never falls as time passes.
    pub proof fn lemma_cycle_index_monotonic(&self, earlier: int, later: int)
        requires
            self.cycle_length > 0,
            earlier <= later,
        ensures
            self.spec_cycle_index(earlier) <= self.spec_cycle_index(later),
    {
        lemma_div_is_ordered(earlier, later, self.cycle_length as int);
    }

    /// From the end of its window on, a directive's quota is its whole count.
    pub proof fn lemma_quota_saturates(&self, i: int, cycle: int, elapsed: int)
        requires
            0 <= i < self.directives@.len(),
            elapsed >= self.window_end(i, cycle),
        ensures
            self.quota_in_cycle(i, cycle, elapsed) == self.directives@[i].count,
    {
    }
}

} // verus!
