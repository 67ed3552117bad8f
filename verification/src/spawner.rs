//! The spawn evaluator: from the schedule, the clock and the tracker to the
//! orders of one evaluation.
//!
//! An evaluation looks at every directive whose window holds the current
//! time. For each it orders the units that the quota asks for beyond those
//! the tracker already counts, and then sets the tracker to the quota. So an
//! evaluation after a long pause orders the whole backlog at once, and a
//! second evaluation at the same time orders nothing.

use vstd::prelude::*;
use crate::roster::{
    frames_of, race_of, scaled_health, spec_scaled_health, AnimationIndices, EnemiesData,
    EnemyStats, EnemyType,
};
use crate::schedule::{lemma_quota_bounded, lemma_quota_monotonic, SpawnSchedule};
use crate::text::text_bytes;
use crate::tracker::{
    key_cycle, key_directive, lemma_key_round_trip, recorded, spec_tracker_key, SpawnTracker,
};

verus! {

/// What one active directive asks for in one evaluation: `count` new units of
/// the directive at position `directive`, with their looks and their
/// statistics for the current cycle.
#[derive(Clone, Copy, Debug, PartialEq, Eq, Structural)]
pub struct SpawnOrder {
    pub directive: usize,
    pub count: u32,
    pub enemy_type: EnemyType,
    pub animation_indicies: AnimationIndices,
    pub health: u128,
    pub damage: u32,
}

/// Why an evaluation ordered nothing.
#[derive(Clone, Copy, Debug, PartialEq, Eq, Structural)]
pub enum SpawnError {
    /// The statistics table has no row for the race and power tier of the
    /// active directive at this position.
    MissingStats { directive: usize },
}

/// The state of the spawn scheduler: the schedule, the time elapsed in
/// milliseconds, and the tracker.
pub struct Spawner {
    pub schedule: SpawnSchedule,
    pub elapsed: u64,
    pub tracker: SpawnTracker,
}

/// The base statistics that `table` holds for directive `i`.
pub open spec fn directive_stats(schedule: SpawnSchedule, table: EnemiesData, i: int) -> Option<
    EnemyStats,
> {
    table.stats_of(
        text_bytes(schedule.directives@[i].race@),
        text_bytes(schedule.directives@[i].power@),
    )
}

/// Whether directive `i` is active at `now` while the table lacks its row.
pub open spec fn unresolved(schedule: SpawnSchedule, table: EnemiesData, i: int, now: int) -> bool {
    schedule.spec_is_active(i, now) && directive_stats(schedule, table, i).is_none()
}

/// The units that a quota of `total` asks for beyond the `already` released.
pub open spec fn backlog(total: nat, already: nat) -> nat {
    if total > already {
        (total - already) as nat
    } else {
        0
    }
}

/// The order of directive `i` in an evaluation at `now` that finds the counts
/// `counts`: none while the directive is inactive.
pub open spec fn spec_order(
    schedule: SpawnSchedule,
    table: EnemiesData,
    counts: Map<u128, u32>,
    i: int,
    now: int,
) -> Option<SpawnOrder> {
    let directive = schedule.directives@[i];
    let stats = directive_stats(schedule, table, i);
    let cycle = schedule.spec_cycle_index(now);
    let race = race_of(text_bytes(directive.race@));
    if schedule.spec_is_active(i, now) && stats.is_some() {
        Some(
            SpawnOrder {
                directive: i as usize,
                count: backlog(
                    schedule.spec_total_to_spawn(i, now),
                    recorded(counts, directive.id, cycle as u64) as nat,
                ) as u32,
                enemy_type: race,
                animation_indicies: frames_of(race, text_bytes(directive.power@)),
                health: spec_scaled_health(stats.unwrap().health as nat, cycle as nat) as u128,
                damage: stats.unwrap().damage,
            },
        )
    } else {
        None
    }
}

/// Whether an evaluation at `now` sets the count under `key`, looking only at
/// the first `upto` directives.
pub open spec fn refreshes(schedule: SpawnSchedule, now: int, upto: int, key: u128) -> bool {
    &&& schedule.holds(key_directive(key))
    &&& schedule.position_of(key_directive(key)) < upto
    &&& key_cycle(key) == schedule.spec_cycle_index(now)
    &&& schedule.spec_is_active(schedule.position_of(key_directive(key)), now)
}

/// The counts after an evaluation at `now` of the first `upto` directives:
/// the quota under every key that the evaluation sets, the old count
/// elsewhere.
pub open spec fn counts_after_first(
    schedule: SpawnSchedule,
    counts: Map<u128, u32>,
    now: int,
    upto: int,
) -> Map<u128, u32> {
    Map::new(
        |key: u128| counts.dom().contains(key) || refreshes(schedule, now, upto, key),
        |key: u128|
            if refreshes(schedule, now, upto, key) {
                schedule.spec_total_to_spawn(schedule.position_of(key_directive(key)), now) as u32
            } else {
                counts[key]
            },
    )
}

/// The counts after an evaluation at `now`.
pub open spec fn counts_after(schedule: SpawnSchedule, counts: Map<u128, u32>, now: int) -> Map<
    u128,
    u32,
> {
    counts_after_first(schedule, counts, now, schedule.directives@.len() as int)
}

/// Whether no count exceeds the quota that its directive has at `now` for
/// the window of its cycle.
pub open spec fn counts_bounded(schedule: SpawnSchedule, counts: Map<u128, u32>, now: int) -> bool {
    forall|i: int, cycle: u64|
        0 <= i < schedule.directives@.len() ==> #[trigger] recorded(
            counts,
            schedule.directives@[i].id,
            cycle,
        ) <= schedule.quota_in_cycle(i, cycle as int, now)
}

/// Whether `outcome` and the counts `after` are what an evaluation at `now`
/// gives that finds the counts `before`.
///
/// If the table has the row of every active directive, the outcome holds one
/// entry for each directive, in the order of the schedule: its order if it is
/// active, nothing if it is not; the counts are those after the evaluation,
/// and none of them is lower than before. Otherwise the outcome names the
/// first active directive whose row is missing, and the counts are as they
/// were.
pub open spec fn evaluation_of(
    schedule: SpawnSchedule,
    table: EnemiesData,
    now: int,
    before: Map<u128, u32>,
    after: Map<u128, u32>,
    outcome: Result<Vec<Option<SpawnOrder>>, SpawnError>,
) -> bool {
    match outcome {
        Ok(orders) => {
            &&& forall|j: int|
                0 <= j < schedule.directives@.len() ==> !unresolved(schedule, table, j, now)
            &&& orders@.len() == schedule.directives@.len()
            &&& forall|j: int|
                0 <= j < orders@.len() ==> #[trigger] orders@[j] == spec_order(
                    schedule,
                    table,
                    before,
                    j,
                    now,
                )
            &&& after == counts_after(schedule, before, now)
            &&& forall|id: u64, cycle: u64|
                recorded(before, id, cycle) <= #[trigger] recorded(after, id, cycle)
        },
        Err(SpawnError::MissingStats { directive }) => {
            &&& directive < schedule.directives@.len()
            &&& unresolved(schedule, table, directive as int, now)
            &&& forall|j: int| 0 <= j < directive ==> !unresolved(schedule, table, j, now)
            &&& after == before
        },
    }
}

/// The clock after `delta` more milliseconds. It stops at the largest value
/// it can hold.
pub open spec fn clock_after(elapsed: u64, delta: u64) -> u64 {
    if elapsed + delta > u64::MAX {
        u64::MAX
    } else {
        (elapsed + delta) as u64
    }
}

/// The clock and the counts after a run of ticks, each of which advances the
/// clock by its delta and then evaluates.
pub open spec fn run_ticks(
    schedule: SpawnSchedule,
    elapsed: u64,
    counts: Map<u128, u32>,
    deltas: Seq<u64>,
) -> (u64, Map<u128, u32>)
    decreases deltas.len(),
{
    if deltas.len() == 0 {
        (elapsed, counts)
    } else {
        let before = run_ticks(schedule, elapsed, counts, deltas.drop_last());
        let now = clock_after(before.0, deltas.last());
        (now, counts_after(schedule, before.1, now as int))
    }
}

/// The sum of a run of deltas.
pub open spec fn total_delta(deltas: Seq<u64>) -> nat
    decreases deltas.len(),
{
    if deltas.len() == 0 {
        0
    } else {
        total_delta(deltas.drop_last()) + deltas.last() as nat
    }
}

/// An evaluation sets the count of every active directive to its quota and
/// leaves every other count as it was.
pub proof fn lemma_counts_after(
    schedule: SpawnSchedule,
    counts: Map<u128, u32>,
    now: int,
    i: int,
    cycle: u64,
)
    requires
        schedule.wf(),
        0 <= i < schedule.directives@.len(),
    ensures
        recorded(counts_after(schedule, counts, now), schedule.directives@[i].id, cycle) == if cycle
            == schedule.spec_cycle_index(now) && schedule.spec_is_active(i, now) {
            schedule.spec_total_to_spawn(i, now) as u32
        } else {
            recorded(counts, schedule.directives@[i].id, cycle)
        },
{
    lemma_key_round_trip(schedule.directives@[i].id, cycle, 0);
    schedule.lemma_position_of(i);
}

/// An evaluation never lowers a count, and keeps every count within its
/// quota, when the counts were within their quotas before.
pub proof fn lemma_evaluation_keeps_bounds(schedule: SpawnSchedule, counts: Map<u128, u32>, now: int)
    requires
        schedule.wf(),
        counts_bounded(schedule, counts, now),
    ensures
        counts_bounded(schedule, counts_after(schedule, counts, now), now),
        forall|id: u64, cycle: u64|
            recorded(counts, id, cycle) <= #[trigger] recorded(
                counts_after(schedule, counts, now),
                id,
                cycle,
            ),
{
    let after = counts_after(schedule, counts, now);
    assert forall|i: int, cycle: u64| 0 <= i < schedule.directives@.len() implies #[trigger] recorded(
        after,
        schedule.directives@[i].id,
        cycle,
    ) <= schedule.quota_in_cycle(i, cycle as int, now) by {
        lemma_counts_after(schedule, counts, now, i, cycle);
        assert(recorded(counts, schedule.directives@[i].id, cycle) <= schedule.quota_in_cycle(
            i,
            cycle as int,
            now,
        ));
    }
    assert forall|id: u64, cycle: u64|
        recorded(counts, id, cycle) <= #[trigger] recorded(after, id, cycle) by {
        lemma_key_round_trip(id, cycle, 0);
        if schedule.holds(id) {
            let i = schedule.position_of(id);
            lemma_counts_after(schedule, counts, now, i, cycle);
            lemma_quota_bounded(
                schedule.directives@[i].count as nat,
                schedule.window_start(i, cycle as int),
                schedule.window_end(i, cycle as int),
                now,
            );
            assert(recorded(counts, schedule.directives@[i].id, cycle) <= schedule.quota_in_cycle(
                i,
                cycle as int,
                now,
            ));
        }
    }
}

/// Counts that are within their quotas stay so as time passes.
pub proof fn lemma_bounds_last(
    schedule: SpawnSchedule,
    counts: Map<u128, u32>,
    earlier: int,
    later: int,
)
    requires
        counts_bounded(schedule, counts, earlier),
        earlier <= later,
    ensures
        counts_bounded(schedule, counts, later),
{
    assert forall|i: int, cycle: u64| 0 <= i < schedule.directives@.len() implies #[trigger] recorded(
        counts,
        schedule.directives@[i].id,
        cycle,
    ) <= schedule.quota_in_cycle(i, cycle as int, later) by {
        assert(recorded(counts, schedule.directives@[i].id, cycle) <= schedule.quota_in_cycle(
            i,
            cycle as int,
            earlier,
        ));
        lemma_quota_monotonic(
            schedule.directives@[i].count as nat,
            schedule.window_start(i, cycle as int),
            schedule.window_end(i, cycle as int),
            earlier,
            later,
        );
    }
}

/// After a run of ticks the clock shows the time it started with plus the sum
/// of the deltas, or its largest value if that is less.
pub proof fn lemma_run_clock(
    schedule: SpawnSchedule,
    elapsed: u64,
    counts: Map<u128, u32>,
    deltas: Seq<u64>,
)
    ensures
        run_ticks(schedule, elapsed, counts, deltas).0 == if elapsed + total_delta(deltas)
            > u64::MAX {
            u64::MAX
        } else {
            (elapsed + total_delta(deltas)) as u64
        },
    decreases deltas.len(),
{
    if deltas.len() > 0 {
        lemma_run_clock(schedule, elapsed, counts, deltas.drop_last());
    }
}

/// However a stretch of time is cut into ticks, the count of a directive that
/// is active at the end of the stretch comes out the same: the quota at that
/// time.
pub proof fn lemma_ticks_granularity(
    schedule: SpawnSchedule,
    elapsed: u64,
    counts: Map<u128, u32>,
    first: Seq<u64>,
    second: Seq<u64>,
    i: int,
)
    requires
        schedule.wf(),
        0 <= i < schedule.directives@.len(),
        first.len() > 0,
        second.len() > 0,
        total_delta(first) == total_delta(second),
        schedule.spec_is_active(i, run_ticks(schedule, elapsed, counts, first).0 as int),
    ensures
        ({
            let one = run_ticks(schedule, elapsed, counts, first);
            let other = run_ticks(schedule, elapsed, counts, second);
            let cycle = schedule.spec_cycle_index(one.0 as int) as u64;
            let id = schedule.directives@[i].id;
            &&& one.0 == other.0
            &&& recorded(one.1, id, cycle) == recorded(other.1, id, cycle)
            &&& recorded(one.1, id, cycle) == schedule.spec_total_to_spawn(i, one.0 as int)
        }),
{
    lemma_run_clock(schedule, elapsed, counts, first);
    lemma_run_clock(schedule, elapsed, counts, second);
    let one = run_ticks(schedule, elapsed, counts, first);
    let other = run_ticks(schedule, elapsed, counts, second);
    let cycle = schedule.spec_cycle_index(one.0 as int) as u64;
    let before_one = run_ticks(schedule, elapsed, counts, first.drop_last());
    let before_other = run_ticks(schedule, elapsed, counts, second.drop_last());
    schedule.lemma_cycle_index_bounds(one.0 as int);
    lemma_quota_bounded(
        schedule.directives@[i].count as nat,
        schedule.window_start(i, cycle as int),
        schedule.window_end(i, cycle as int),
        one.0 as int,
    );
    lemma_counts_after(schedule, before_one.1, one.0 as int, i, cycle);
    lemma_counts_after(schedule, before_other.1, other.0 as int, i, cycle);
}

/// Over a run of ticks no count ever falls, and every count stays within its
/// quota.
pub proof fn lemma_run_monotonic(
    schedule: SpawnSchedule,
    elapsed: u64,
    counts: Map<u128, u32>,
    deltas: Seq<u64>,
    id: u64,
    cycle: u64,
)
    requires
        schedule.wf(),
        counts_bounded(schedule, counts, elapsed as int),
    ensures
        ({
            let after = run_ticks(schedule, elapsed, counts, deltas);
            &&& elapsed <= after.0
            &&& counts_bounded(schedule, after.1, after.0 as int)
            &&& recorded(counts, id, cycle) <= recorded(after.1, id, cycle)
        }),
    decreases deltas.len(),
{
    if deltas.len() > 0 {
        lemma_run_monotonic(schedule, elapsed, counts, deltas.drop_last(), id, cycle);
        let before = run_ticks(schedule, elapsed, counts, deltas.drop_last());
        let now = clock_after(before.0, deltas.last());
        lemma_bounds_last(schedule, before.1, before.0 as int, now as int);
        lemma_evaluation_keeps_bounds(schedule, before.1, now as int);
    }
}

/// The units of directive `i` that a run of ticks orders in `cycle`: at each
/// tick that falls into the cycle while the directive is active, what the
/// quota asks for beyond the count that the tick finds.
pub open spec fn ordered_in_cycle(
    schedule: SpawnSchedule,
    elapsed: u64,
    counts: Map<u128, u32>,
    deltas: Seq<u64>,
    i: int,
    cycle: u64,
) -> nat
    decreases deltas.len(),
{
    if deltas.len() == 0 {
        0
    } else {
        let before = run_ticks(schedule, elapsed, counts, deltas.drop_last());
        let now = clock_after(before.0, deltas.last());
        let earlier = ordered_in_cycle(schedule, elapsed, counts, deltas.drop_last(), i, cycle);
        if schedule.spec_cycle_index(now as int) == cycle && schedule.spec_is_active(i, now as int) {
            earlier + backlog(
                schedule.spec_total_to_spawn(i, now as int),
                recorded(before.1, schedule.directives@[i].id, cycle) as nat,
            )
        } else {
            earlier
        }
    }
}

/// Nothing is ordered twice and nothing is left out: over a run of ticks, the
/// count of a directive in a cycle grows by exactly the units ordered for it
/// in that cycle.
pub proof fn lemma_orders_add_up(
    schedule: SpawnSchedule,
    elapsed: u64,
    counts: Map<u128, u32>,
    deltas: Seq<u64>,
    i: int,
    cycle: u64,
)
    requires
        schedule.wf(),
        0 <= i < schedule.directives@.len(),
        counts_bounded(schedule, counts, elapsed as int),
    ensures
        recorded(run_ticks(schedule, elapsed, counts, deltas).1, schedule.directives@[i].id, cycle)
            == recorded(counts, schedule.directives@[i].id, cycle) + ordered_in_cycle(
            schedule,
            elapsed,
            counts,
            deltas,
            i,
            cycle,
        ),
    decreases deltas.len(),
{
    if deltas.len() > 0 {
        let id = schedule.directives@[i].id;
        lemma_orders_add_up(schedule, elapsed, counts, deltas.drop_last(), i, cycle);
        lemma_run_monotonic(schedule, elapsed, counts, deltas.drop_last(), id, cycle);
        let before = run_ticks(schedule, elapsed, counts, deltas.drop_last());
        let now = clock_after(before.0, deltas.last());
        lemma_bounds_last(schedule, before.1, before.0 as int, now as int);
        lemma_counts_after(schedule, before.1, now as int, i, cycle);
        lemma_quota_bounded(
            schedule.directives@[i].count as nat,
            schedule.window_start(i, cycle as int),
            schedule.window_end(i, cycle as int),
            now as int,
        );
        assert(recorded(before.1, id, cycle) <= schedule.quota_in_cycle(i, cycle as int, now as int));
    }
}

impl Spawner {
    /// The state is well formed when the schedule is and no count exceeds
    /// the quota that its directive has at the current time.
    pub open spec fn wf(&self) -> bool {
        &&& self.schedule.wf()
        &&& counts_bounded(self.schedule, self.tracker@, self.elapsed as int)
    }

    /// A scheduler at time zero with an empty tracker.
    pub fn new(schedule: SpawnSchedule) -> (spawner: Spawner)
        requires
            schedule.wf(),
        ensures
            spawner.wf(),
            spawner.schedule == schedule,
            spawner.elapsed == 0,
            spawner.tracker@ == Map::<u128, u32>::empty(),
    {
        Spawner { schedule, elapsed: 0, tracker: SpawnTracker::new() }
    }

    /// Advances the clock by `delta` milliseconds.
    pub fn advance(&mut self, delta: u64)
        requires
            old(self).wf(),
        ensures
            final(self).wf(),
            final(self).schedule == old(self).schedule,
            final(self).tracker@ == old(self).tracker@,
            final(self).elapsed == clock_after(old(self).elapsed, delta),
            final(self).elapsed >= old(self).elapsed,
    {
        let now: u64 = if delta > u64::MAX - self.elapsed {
            u64::MAX
        } else {
            self.elapsed + delta
        };
        proof {
            lemma_bounds_last(self.schedule, self.tracker@, self.elapsed as int, now as int);
        }
        self.elapsed = now;
    }

    /// The first directive that is active now while the table lacks its row,
    /// if there is one.
    pub fn first_unresolved(&self, table: &EnemiesData) -> (found: Option<usize>)
        requires
            self.schedule.wf(),
        ensures
            match found {
                Some(i) => {
                    &&& i < self.schedule.directives@.len()
                    &&& unresolved(self.schedule, *table, i as int, self.elapsed as int)
                    &&& forall|j: int|
                        0 <= j < i ==> !unresolved(self.schedule, *table, j, self.elapsed as int)
                },
                None => forall|j: int|
                    0 <= j < self.schedule.directives@.len() ==> !unresolved(
                        self.schedule,
                        *table,
                        j,
                        self.elapsed as int,
                    ),
            },
    {
        let mut i: usize = 0;
        while i < self.schedule.directives.len()
            invariant
                self.schedule.wf(),
                i <= self.schedule.directives@.len(),
                forall|j: int|
                    0 <= j < i ==> !unresolved(self.schedule, *table, j, self.elapsed as int),
            decreases self.schedule.directives@.len() - i,
        {
            if self.schedule.is_active(i, self.elapsed) {
                let directive = &self.schedule.directives[i];
                let stats = table.get_enemy_stats(directive.race.as_str(), directive.power.as_str());
                if stats.is_none() {
                    return Some(i);
                }
            }
            i += 1;
        }
        None
    }

    /// One step of the game loop. The clock advances by `delta` in any case.
    /// The schedule is evaluated only if an evaluation is `due` and the
    /// player is there; otherwise nothing is ordered and the tracker stays as
    /// it was.
    pub fn tick(&mut self, delta: u64, due: bool, player_present: bool, table: &EnemiesData) -> (outcome:
        Result<Vec<Option<SpawnOrder>>, SpawnError>)
        requires
            old(self).wf(),
        ensures
            final(self).wf(),
            final(self).schedule == old(self).schedule,
            final(self).elapsed == clock_after(old(self).elapsed, delta),
            if due && player_present {
                evaluation_of(
                    old(self).schedule,
                    *table,
                    final(self).elapsed as int,
                    old(self).tracker@,
                    final(self).tracker@,
                    outcome,
                )
            } else {
                &&& outcome.is_ok()
                &&& outcome.unwrap()@.len() == 0
                &&& final(self).tracker@ == old(self).tracker@
            },
    {
        self.advance(delta);
        if due && player_present {
            self.evaluate(table)
        } else {
            Ok(Vec::new())
        }
    }

    /// Evaluates the schedule at the current time. The result holds one entry
    /// for each directive, in the order of the schedule: its order if it is
    /// active, nothing if it is not. The tracker then holds the quota of
    /// every active directive. If the table lacks the row of an active
    /// directive, nothing is ordered and the tracker stays as it was.
    pub fn evaluate(&mut self, table: &EnemiesData) -> (outcome: Result<
        Vec<Option<SpawnOrder>>,
        SpawnError,
    >)
        requires
            old(self).wf(),
        ensures
            final(self).wf(),
            final(self).schedule == old(self).schedule,
            final(self).elapsed == old(self).elapsed,
            evaluation_of(
                old(self).schedule,
                *table,
                old(self).elapsed as int,
                old(self).tracker@,
                final(self).tracker@,
                outcome,
            ),
    {
        match self.first_unresolved(table) {
            Some(directive) => {
                return Err(SpawnError::MissingStats { directive });
            },
            None => {},
        }
        let now: u64 = self.elapsed;
        let cycle: u64 = self.schedule.cycle_index(now);
        let ghost schedule = self.schedule;
        let ghost start = self.tracker@;
        let mut orders: Vec<Option<SpawnOrder>> = Vec::new();
        let mut i: usize = 0;
        assert(self.tracker@ =~= counts_after_first(schedule, start, now as int, 0));
        while i < self.schedule.directives.len()
            invariant
                self.schedule == schedule,
                self.elapsed == now,
                schedule.wf(),
                cycle == schedule.spec_cycle_index(now as int),
                i <= schedule.directives@.len(),
                orders@.len() == i,
                forall|j: int|
                    0 <= j < schedule.directives@.len() ==> !unresolved(
                        schedule,
                        *table,
                        j,
                        now as int,
                    ),
                forall|j: int|
                    0 <= j < i ==> #[trigger] orders@[j] == spec_order(
                        schedule,
                        *table,
                        start,
                        j,
                        now as int,
                    ),
                self.tracker@ == counts_after_first(schedule, start, now as int, i as int),
            decreases schedule.directives@.len() - i,
        {
            let ghost before = self.tracker@;
            let id: u64 = self.schedule.directives[i].id;
            proof {
                lemma_key_round_trip(id, cycle, 0);
                schedule.lemma_position_of(i as int);
                assert(!unresolved(schedule, *table, i as int, now as int));
            }
            if self.schedule.is_active(i, now) {
                let total: u32 = self.schedule.total_to_spawn(i, now);
                let already: u32 = self.tracker.already_spawned(id, cycle);
                let count: u32 = if total > already {
                    total - already
                } else {
                    0
                };
                let directive = &self.schedule.directives[i];
                let enemy_type = EnemyType::get_race(directive.race.as_str());
                let animation_indicies = enemy_type.get_animation_indicies(directive.power.as_str());
                let order = match table.get_enemy_stats(
                    directive.race.as_str(),
                    directive.power.as_str(),
                ) {
                    Some(stats) => Some(
                        SpawnOrder {
                            directive: i,
                            count,
                            enemy_type,
                            animation_indicies,
                            health: scaled_health(stats.health, cycle),
                            damage: stats.damage,
                        },
                    ),
                    None => None,
                };
                assert(recorded(before, id, cycle) == recorded(start, id, cycle));
                orders.push(order);
                self.tracker.record(id, cycle, total);
                assert(self.tracker@ =~= counts_after_first(
                    schedule,
                    start,
                    now as int,
                    i as int + 1,
                )) by {
                    assert forall|key: u128|
                        refreshes(schedule, now as int, i as int + 1, key) == (refreshes(
                            schedule,
                            now as int,
                            i as int,
                            key,
                        ) || key == spec_tracker_key(id, cycle)) by {
                        lemma_key_round_trip(id, cycle, key);
                    }
                }
            } else {
                orders.push(None);
                assert(self.tracker@ =~= counts_after_first(
                    schedule,
                    start,
                    now as int,
                    i as int + 1,
                )) by {
                    assert forall|key: u128|
                        refreshes(schedule, now as int, i as int + 1, key) == refreshes(
                            schedule,
                            now as int,
                            i as int,
                            key,
                        ) by {
                        lemma_key_round_trip(id, cycle, key);
                    }
                }
            }
            i += 1;
        }
        proof {
            lemma_evaluation_keeps_bounds(schedule, start, now as int);
        }
        Ok(orders)
    }
}

} // verus!
