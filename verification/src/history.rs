//! The history tracker: for every memory pool a bounded series of its most
//! recent usage samples, oldest first.
//!
//! A series holds at most `capacity` samples. Recording into a full series
//! drops its oldest sample first, so a series always holds the latest
//! samples recorded for its pool, in the order of recording. A series is
//! created by the first sample for its pool and is never removed.

use std::collections::HashMap;
use std::collections::VecDeque;
use vstd::prelude::*;

verus! {

broadcast use vstd::std_specs::hash::group_hash_axioms;

/// The fill level of a pool at one moment: the chunks in use out of the
/// chunks the pool has. The utilization it stands for is
/// `used_chunks / total_chunks * 100` percent.
#[derive(Clone, Copy, Debug, PartialEq, Eq, Structural)]
pub struct UsageSample {
    pub used_chunks: u32,
    pub total_chunks: u32,
}

/// The last `capacity` of `values`, or all of them where there are fewer.
pub open spec fn latest<T>(values: Seq<T>, capacity: nat) -> Seq<T> {
    if values.len() <= capacity {
        values
    } else {
        values.skip(values.len() - capacity)
    }
}

/// The series of `key` in `history`; empty where nothing was recorded.
pub open spec fn series_of(
    history: Map<(u32, usize), Seq<UsageSample>>,
    key: (u32, usize),
) -> Seq<UsageSample> {
    if history.contains_key(key) {
        history[key]
    } else {
        Seq::<UsageSample>::empty()
    }
}

/// The history after `sample` was recorded for `key`: the series of `key`
/// is extended by the sample and cut to the latest `capacity` samples; the
/// other series stay as they are.
pub open spec fn recorded(
    history: Map<(u32, usize), Seq<UsageSample>>,
    capacity: nat,
    key: (u32, usize),
    sample: UsageSample,
) -> Map<(u32, usize), Seq<UsageSample>> {
    history.insert(key, latest(series_of(history, key).push(sample), capacity))
}

/// The history after `records` were recorded one after the other.
pub open spec fn recorded_all(
    history: Map<(u32, usize), Seq<UsageSample>>,
    capacity: nat,
    records: Seq<((u32, usize), UsageSample)>,
) -> Map<(u32, usize), Seq<UsageSample>>
    decreases records.len(),
{
    if records.len() == 0 {
        history
    } else {
        recorded(
            recorded_all(history, capacity, records.drop_last()),
            capacity,
            records.last().0,
            records.last().1,
        )
    }
}

/// The samples that `records` hold for `key`, in the order of recording.
pub open spec fn samples_for(
    records: Seq<((u32, usize), UsageSample)>,
    key: (u32, usize),
) -> Seq<UsageSample>
    decreases records.len(),
{
    if records.len() == 0 {
        Seq::<UsageSample>::empty()
    } else if records.last().0 == key {
        samples_for(records.drop_last(), key).push(records.last().1)
    } else {
        samples_for(records.drop_last(), key)
    }
}

/// Cutting a series before and after it is extended gives what cutting it
/// afterwards gives.
pub proof fn lemma_latest_of_extended<T>(values: Seq<T>, capacity: nat, value: T)
    requires
        capacity > 0,
    ensures
        latest(latest(values, capacity).push(value), capacity) == latest(
            values.push(value),
            capacity,
        ),
{
    assert(latest(latest(values, capacity).push(value), capacity) =~= latest(
        values.push(value),
        capacity,
    ));
}

/// Recording two runs of records one after the other is recording their
/// concatenation.
pub proof fn lemma_recorded_all_concat(
    history: Map<(u32, usize), Seq<UsageSample>>,
    capacity: nat,
    first: Seq<((u32, usize), UsageSample)>,
    second: Seq<((u32, usize), UsageSample)>,
)
    ensures
        recorded_all(history, capacity, first + second) == recorded_all(
            recorded_all(history, capacity, first),
            capacity,
            second,
        ),
    decreases second.len(),
{
    if second.len() == 0 {
        assert(first + second =~= first);
    } else {
        assert((first + second).drop_last() =~= first + second.drop_last());
        assert((first + second).last() == second.last());
        lemma_recorded_all_concat(history, capacity, first, second.drop_last());
    }
}

/// Whether no series of `history` holds more than `capacity` samples.
pub open spec fn bounded(history: Map<(u32, usize), Seq<UsageSample>>, capacity: nat) -> bool {
    forall|key: (u32, usize)| (#[trigger] series_of(history, key)).len() <= capacity
}

/// No series is ever removed, and none grows beyond the capacity: after any
/// run of records a pool that had a series still has one, and where every
/// series held at most `capacity` samples before, every series does so
/// afterwards.
pub proof fn lemma_recorded_all_keeps_series(
    history: Map<(u32, usize), Seq<UsageSample>>,
    capacity: nat,
    records: Seq<((u32, usize), UsageSample)>,
    key: (u32, usize),
)
    ensures
        history.contains_key(key) ==> recorded_all(history, capacity, records).contains_key(key),
        bounded(history, capacity) ==> bounded(recorded_all(history, capacity, records), capacity),
    decreases records.len(),
{
    if records.len() > 0 {
        let earlier = recorded_all(history, capacity, records.drop_last());
        let after = recorded_all(history, capacity, records);
        lemma_recorded_all_keeps_series(history, capacity, records.drop_last(), key);
        if bounded(history, capacity) {
            assert forall|other: (u32, usize)| (#[trigger] series_of(after, other)).len()
                <= capacity by {
                assert(series_of(earlier, other).len() <= capacity);
            }
        }
    }
}

/// The first-in-first-out law. After any run of records into an empty
/// history, a pool has a series exactly if a sample was recorded for it,
/// and the series holds the latest `capacity` of the pool's samples in the
/// order of recording: as many samples as were recorded for the pool, but
/// no more than `capacity`.
pub proof fn lemma_history_keeps_latest(
    records: Seq<((u32, usize), UsageSample)>,
    capacity: nat,
    key: (u32, usize),
)
    requires
        capacity > 0,
    ensures
        ({
            let history = recorded_all(Map::empty(), capacity, records);
            let samples = samples_for(records, key);
            &&& history.contains_key(key) <==> samples.len() > 0
            &&& series_of(history, key) == latest(samples, capacity)
            &&& series_of(history, key).len() == if samples.len() <= capacity {
                samples.len()
            } else {
                capacity
            }
        }),
    decreases records.len(),
{
    if records.len() > 0 {
        lemma_history_keeps_latest(records.drop_last(), capacity, key);
        if records.last().0 == key {
            lemma_latest_of_extended(
                samples_for(records.drop_last(), key),
                capacity,
                records.last().1,
            );
        }
    }
}

/// The code under which the series of a pool is stored: segment id and
/// pool index packed into one integer.
pub closed spec fn pool_code(key: (u32, usize)) -> u128 {
    (key.0 as u128 * 0x1_0000_0000_0000_0000 + key.1 as u128) as u128
}

/// The history tracker.
pub struct HistoryTracker {
    capacity: usize,
    series: HashMap<u128, VecDeque<UsageSample>>,
}

impl View for HistoryTracker {
    type V = Map<(u32, usize), Seq<UsageSample>>;

    /// The series by pool, each oldest sample first.
    closed spec fn view(&self) -> Map<(u32, usize), Seq<UsageSample>> {
        Map::new(
            |key: (u32, usize)| self.series@.contains_key(pool_code(key)),
            |key: (u32, usize)| self.series@[pool_code(key)]@,
        )
    }
}

impl HistoryTracker {
    #[verifier::type_invariant]
    spec fn well_formed(&self) -> bool {
        &&& self.capacity > 0
        &&& forall|code: u128| #[trigger]
            self.series@.contains_key(code) ==> 0 < self.series@[code]@.len() <= self.capacity
    }

    /// The number of samples that a series holds at most.
    pub closed spec fn spec_capacity(&self) -> nat {
        self.capacity as nat
    }

    /// A tracker without any series, whose series will hold up to
    /// `capacity` samples each.
    pub fn new(capacity: usize) -> (tracker: Self)
        requires
            capacity > 0,
        ensures
            tracker@ == Map::<(u32, usize), Seq<UsageSample>>::empty(),
            tracker.spec_capacity() == capacity,
    {
        let tracker = HistoryTracker { capacity, series: HashMap::new() };
        assert(tracker@ =~= Map::<(u32, usize), Seq<UsageSample>>::empty());
        tracker
    }

    /// The number of samples that a series holds at most.
    pub fn capacity(&self) -> (capacity: usize)
        ensures
            capacity == self.spec_capacity(),
            capacity > 0,
    {
        proof {
            use_type_invariant(self);
        }
        self.capacity
    }

    /// Records `sample` for the pool `key`. The sample becomes the newest
    /// of the pool's series; if the series was full, its oldest sample is
    /// dropped.
    pub fn record(&mut self, key: (u32, usize), sample: UsageSample)
        ensures
            final(self).spec_capacity() == old(self).spec_capacity(),
            final(self)@ == recorded(old(self)@, old(self).spec_capacity(), key, sample),
    {
        proof {
            use_type_invariant(&*self);
        }
        let code = pack(key);
        let mut taken = HistoryTracker { capacity: self.capacity, series: HashMap::new() };
        std::mem::swap(self, &mut taken);
        let HistoryTracker { capacity, series: mut all } = taken;
        let mut series = match all.remove(&code) {
            Some(series) => series,
            None => VecDeque::new(),
        };
        assert(series@ == series_of(old(self)@, key));
        if series.len() >= capacity {
            series.pop_front();
        }
        series.push_back(sample);
        assert(series@ =~= latest(series_of(old(self)@, key).push(sample), capacity as nat));
        all.insert(code, series);
        *self = HistoryTracker { capacity, series: all };
        proof {
            let expected = recorded(old(self)@, old(self).spec_capacity(), key, sample);
            assert forall|other: (u32, usize)| #[trigger]
                self@.contains_key(other) == expected.contains_key(other) by {
                lemma_pool_code_injective(key, other);
            }
            assert forall|other: (u32, usize)| #[trigger]
                self@.contains_key(other) implies self@[other] == expected[other] by {
                lemma_pool_code_injective(key, other);
            }
            assert(self@ =~= expected);
        }
    }

    /// The series of the pool `key`, oldest sample first, or nothing if no
    /// sample was ever recorded for the pool. A series is never empty and
    /// never longer than the capacity.
    pub fn get(&self, key: (u32, usize)) -> (series: Option<&VecDeque<UsageSample>>)
        ensures
            match series {
                Some(samples) => {
                    &&& self@.contains_key(key)
                    &&& samples@ == self@[key]
                    &&& 0 < samples@.len() <= self.spec_capacity()
                },
                None => !self@.contains_key(key),
            },
    {
        proof {
            use_type_invariant(self);
        }
        let code = pack(key);
        self.series.get(&code)
    }
}

/// Two pools with the same code are the same pool.
proof fn lemma_pool_code_injective(a: (u32, usize), b: (u32, usize))
    ensures
        pool_code(a) == pool_code(b) <==> a == b,
{
}

/// Packs a pool's segment id and index into its code.
fn pack(key: (u32, usize)) -> (code: u128)
    ensures
        code == pool_code(key),
{
    key.0 as u128 * 0x1_0000_0000_0000_0000 + key.1 as u128
}

} // verus!
