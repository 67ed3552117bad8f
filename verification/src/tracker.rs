//! The spawn tracker: how many units of each directive have been released in
//! each cycle.

use std::collections::HashMap;
use vstd::prelude::*;

verus! {

/// The number of keys that one directive owns: one per cycle index.
pub const KEY_SPAN: u128 = 0x1_0000_0000_0000_0000;

/// The key under which the tracker counts directive `id` in `cycle`.
pub open spec fn spec_tracker_key(id: u64, cycle: u64) -> u128 {
    (id * KEY_SPAN + cycle) as u128
}

/// The directive that owns `key`.
pub open spec fn key_directive(key: u128) -> u64 {
    (key / KEY_SPAN) as u64
}

/// The cycle that `key` belongs to.
pub open spec fn key_cycle(key: u128) -> u64 {
    (key % KEY_SPAN) as u64
}

/// The count that `counts` holds for directive `id` in `cycle`: zero until
/// one is recorded.
pub open spec fn recorded(counts: Map<u128, u32>, id: u64, cycle: u64) -> u32 {
    let key = spec_tracker_key(id, cycle);
    if counts.dom().contains(key) {
        counts[key]
    } else {
        0
    }
}

/// A key names one directive and one cycle, and each pair has its own key.
pub proof fn lemma_key_round_trip(id: u64, cycle: u64, key: u128)
    ensures
        key_directive(spec_tracker_key(id, cycle)) == id,
        key_cycle(spec_tracker_key(id, cycle)) == cycle,
        spec_tracker_key(key_directive(key), key_cycle(key)) == key,
{
}

/// The key under which the tracker counts directive `id` in `cycle`.
pub fn tracker_key(id: u64, cycle: u64) -> (key: u128)
    ensures
        key == spec_tracker_key(id, cycle),
{
    id as u128 * KEY_SPAN + cycle as u128
}

/// Counts of released units, by directive and cycle. Entries appear when a
/// directive is first evaluated in a cycle and stay for good.
pub struct SpawnTracker {
    counts: HashMap<u128, u32>,
}

impl View for SpawnTracker {
    type V = Map<u128, u32>;

    closed spec fn view(&self) -> Map<u128, u32> {
        self.counts@
    }
}

impl SpawnTracker {
    /// A tracker without entries.
    pub fn new() -> (tracker: SpawnTracker)
        ensures
            tracker@ == Map::<u128, u32>::empty(),
    {
        SpawnTracker { counts: HashMap::new() }
    }

    /// How many units of directive `id` were released in `cycle` so far.
    pub fn already_spawned(&self, id: u64, cycle: u64) -> (count: u32)
        ensures
            count == recorded(self@, id, cycle),
    {
        broadcast use vstd::std_specs::hash::group_hash_axioms;

        let key: u128 = tracker_key(id, cycle);
        match self.counts.get(&key) {
            Some(count) => *count,
            None => 0,
        }
    }

    /// Sets the count of directive `id` in `cycle` to `total`.
    pub fn record(&mut self, id: u64, cycle: u64, total: u32)
        ensures
            final(self)@ == old(self)@.insert(spec_tracker_key(id, cycle), total),
    {
        broadcast use vstd::std_specs::hash::group_hash_axioms;

        let key: u128 = tracker_key(id, cycle);
        self.counts.insert(key, total);
    }

    /// The number of entries.
    pub fn len(&self) -> (entries: usize)
        ensures
            entries == self@.len(),
    {
        broadcast use vstd::std_specs::hash::group_hash_axioms;

        self.counts.len()
    }
}

} // verus!
