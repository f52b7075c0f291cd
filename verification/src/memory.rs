//! The memory aggregator: the latest snapshot of the memory segments, the
//! usage history of every pool, and the selection of one pool.

use crate::history::recorded_all;
use crate::history::lemma_recorded_all_concat;
use crate::history::HistoryTracker;
use crate::history::UsageSample;
use crate::introspection::MemPoolInfo;
use crate::introspection::MemorySegment;
use crate::introspection::MemorySnapshot;
use vstd::prelude::*;

verus! {

/// The number of samples kept for each pool.
pub const USED_CHUNKS_HISTORY_SIZE: usize = 120;

/// The usage sample that a pool gives. A pool that reports no chunks at all
/// gives none: its utilization is unknown.
pub open spec fn usage_of(pool: MemPoolInfo) -> Option<UsageSample> {
    if pool.total_chunks > 0 {
        Some(UsageSample { used_chunks: pool.used_chunks, total_chunks: pool.total_chunks })
    } else {
        None
    }
}

/// The records that the pools of one segment give, in index order: for each
/// pool with a known utilization its sample under the segment's id and the
/// pool's index.
pub open spec fn pool_records(segment_id: u32, pools: Seq<MemPoolInfo>) -> Seq<
    ((u32, usize), UsageSample),
>
    decreases pools.len(),
{
    if pools.len() == 0 {
        Seq::<((u32, usize), UsageSample)>::empty()
    } else {
        match usage_of(pools.last()) {
            Some(sample) => pool_records(segment_id, pools.drop_last()).push(
                ((segment_id, (pools.len() - 1) as usize), sample),
            ),
            None => pool_records(segment_id, pools.drop_last()),
        }
    }
}

/// The records that a snapshot gives: those of its segments, in the order
/// of the segments.
pub open spec fn snapshot_records(segments: Seq<MemorySegment>) -> Seq<((u32, usize), UsageSample)>
    decreases segments.len(),
{
    if segments.len() == 0 {
        Seq::<((u32, usize), UsageSample)>::empty()
    } else {
        snapshot_records(segments.drop_last()) + pool_records(
            segments.last().segment_id,
            segments.last().mempools@,
        )
    }
}

/// Every record of a segment's pools stands for a known utilization: no
/// sample has a total of zero chunks, and a pool that reports no chunks
/// gives no record.
pub proof fn lemma_pool_records_are_measurable(segment_id: u32, pools: Seq<MemPoolInfo>)
    ensures
        pool_records(segment_id, pools).len() <= pools.len(),
        forall|i: int|
            0 <= i < pool_records(segment_id, pools).len() ==> (#[trigger] pool_records(
                segment_id,
                pools,
            )[i]).1.total_chunks > 0,
        (forall|k: int| 0 <= k < pools.len() ==> (#[trigger] pools[k]).total_chunks == 0)
            ==> pool_records(segment_id, pools).len() == 0,
    decreases pools.len(),
{
    if pools.len() > 0 {
        lemma_pool_records_are_measurable(segment_id, pools.drop_last());
        if forall|k: int| 0 <= k < pools.len() ==> (#[trigger] pools[k]).total_chunks == 0 {
            assert(pools[pools.len() - 1].total_chunks == 0);
            assert forall|k: int| 0 <= k < pools.drop_last().len() implies (
            #[trigger] pools.drop_last()[k]).total_chunks == 0 by {
                assert(pools[k].total_chunks == 0);
            }
        }
    }
}

/// Every record of a snapshot stands for a known utilization.
pub proof fn lemma_records_are_measurable(segments: Seq<MemorySegment>)
    ensures
        forall|i: int|
            0 <= i < snapshot_records(segments).len() ==> (#[trigger] snapshot_records(
                segments,
            )[i]).1.total_chunks > 0,
    decreases segments.len(),
{
    if segments.len() > 0 {
        lemma_records_are_measurable(segments.drop_last());
        lemma_pool_records_are_measurable(segments.last().segment_id, segments.last().mempools@);
        let earlier = snapshot_records(segments.drop_last());
        let added = pool_records(segments.last().segment_id, segments.last().mempools@);
        assert forall|i: int| 0 <= i < snapshot_records(segments).len() implies (
        #[trigger] snapshot_records(segments)[i]).1.total_chunks > 0 by {
            if i < earlier.len() {
                assert(snapshot_records(segments)[i] == earlier[i]);
            } else {
                assert(snapshot_records(segments)[i] == added[i - earlier.len()]);
            }
        }
    }
}

/// Whether `segment` is the segment that `position` names and has a pool at
/// the position's index.
pub open spec fn holds(segment: MemorySegment, position: (u32, usize)) -> bool {
    segment.segment_id == position.0 && position.1 < segment.mempools@.len()
}

/// Whether `position` addresses a pool of the snapshot: a segment by its id
/// and a pool by its index in the segment.
pub open spec fn selectable(segments: Seq<MemorySegment>, position: (u32, usize)) -> bool {
    exists|i: int| 0 <= i < segments.len() && #[trigger] holds(segments[i], position)
}

/// The order in which the pools are walked: by segment id, then by pool
/// index.
pub open spec fn walks_before(a: (u32, usize), b: (u32, usize)) -> bool {
    a.0 < b.0 || (a.0 == b.0 && a.1 < b.1)
}

/// Whether a pool follows `from` in the walk.
pub open spec fn has_next(segments: Seq<MemorySegment>, from: (u32, usize)) -> bool {
    exists|to: (u32, usize)| #[trigger] selectable(segments, to) && walks_before(from, to)
}

/// Whether `to` is the pool that follows `from` in the walk: the first of
/// the pools after `from`.
pub open spec fn is_next(segments: Seq<MemorySegment>, from: (u32, usize), to: (u32, usize)) -> bool {
    &&& selectable(segments, to)
    &&& walks_before(from, to)
    &&& forall|other: (u32, usize)| #[trigger]
        selectable(segments, other) && walks_before(from, other) ==> !walks_before(other, to)
}

/// Whether a pool stands before `from` in the walk.
pub open spec fn has_previous(segments: Seq<MemorySegment>, from: (u32, usize)) -> bool {
    exists|to: (u32, usize)| #[trigger] selectable(segments, to) && walks_before(to, from)
}

/// Whether `to` is the pool that stands just before `from` in the walk: the
/// last of the pools before `from`.
pub open spec fn is_previous(
    segments: Seq<MemorySegment>,
    from: (u32, usize),
    to: (u32, usize),
) -> bool {
    &&& selectable(segments, to)
    &&& walks_before(to, from)
    &&& forall|other: (u32, usize)| #[trigger]
        selectable(segments, other) && walks_before(other, from) ==> !walks_before(to, other)
}

/// Whether `to` is the selection after a step back from `from`. Within a
/// segment the step goes to the pool index before. From pool index 0 it
/// goes to the pool that stands just before in the walk, which is the last
/// pool of the nearest earlier segment that has pools; where there is none,
/// or no snapshot is at hand, the selection stays.
pub open spec fn is_step_back(
    segments: Option<MemorySnapshot>,
    from: (u32, usize),
    to: (u32, usize),
) -> bool {
    if from.1 > 0 {
        to == (from.0, (from.1 - 1) as usize)
    } else {
        match segments {
            Some(snapshot) => if has_previous(snapshot.segments@, from) {
                is_previous(snapshot.segments@, from, to)
            } else {
                to == from
            },
            None => to == from,
        }
    }
}

/// Only one pool follows a pool in the walk.
pub proof fn lemma_next_is_unique(
    segments: Seq<MemorySegment>,
    from: (u32, usize),
    to: (u32, usize),
    other: (u32, usize),
)
    requires
        is_next(segments, from, to),
        is_next(segments, from, other),
    ensures
        to == other,
{
}

/// Only one pool stands just before a pool in the walk.
pub proof fn lemma_previous_is_unique(
    segments: Seq<MemorySegment>,
    from: (u32, usize),
    to: (u32, usize),
    other: (u32, usize),
)
    requires
        is_previous(segments, from, to),
        is_previous(segments, from, other),
    ensures
        to == other,
{
}

/// A step forward and a step back. From a pool of the snapshot that has a
/// next pool, the step back from that next pool returns to the pool.
pub proof fn lemma_next_then_previous(
    snapshot: MemorySnapshot,
    from: (u32, usize),
    to: (u32, usize),
    back: (u32, usize),
)
    requires
        selectable(snapshot.segments@, from),
        is_next(snapshot.segments@, from, to),
        is_step_back(Some(snapshot), to, back),
    ensures
        back == from,
{
    let segments = snapshot.segments@;
    if to.1 > 0 {
        let i = choose|i: int| 0 <= i < segments.len() && #[trigger] holds(segments[i], to);
        assert(holds(segments[i], back));
        assert(selectable(segments, back));
    } else {
        assert(has_previous(segments, to));
    }
}

/// A pool of the first `count + 1` segments is a pool of the first `count`
/// segments or of the segment that follows them.
proof fn lemma_selectable_one_more(
    segments: Seq<MemorySegment>,
    count: int,
    position: (u32, usize),
)
    requires
        0 <= count < segments.len(),
    ensures
        selectable(segments.take(count + 1), position) <==> selectable(
            segments.take(count),
            position,
        ) || holds(segments[count], position),
{
    let fewer = segments.take(count);
    let more = segments.take(count + 1);
    if selectable(fewer, position) {
        let i = choose|i: int| 0 <= i < fewer.len() && #[trigger] holds(fewer[i], position);
        assert(holds(more[i], position));
    }
    if holds(segments[count], position) {
        assert(holds(more[count], position));
    }
    if selectable(more, position) {
        let i = choose|i: int| 0 <= i < more.len() && #[trigger] holds(more[i], position);
        if i < count {
            assert(holds(fewer[i], position));
        }
    }
}

/// Whether `a` stands before `b` in the walk.
fn stands_before(a: (u32, usize), b: (u32, usize)) -> (r: bool)
    ensures
        r == walks_before(a, b),
{
    a.0 < b.0 || (a.0 == b.0 && a.1 < b.1)
}

/// The pool usage that a history sample is taken from.
pub fn measure(pool: &MemPoolInfo) -> (sample: Option<UsageSample>)
    ensures
        sample == usage_of(*pool),
{
    if pool.total_chunks > 0 {
        Some(UsageSample { used_chunks: pool.used_chunks, total_chunks: pool.total_chunks })
    } else {
        None
    }
}

/// The memory aggregator.
pub struct MemorySegments {
    /// The latest snapshot, if one ever arrived.
    pub segments: Option<MemorySnapshot>,
    /// The usage history of every pool seen so far, by segment id and pool
    /// index.
    pub used_chunks_history: HistoryTracker,
    /// The selected pool: the id of its segment and its index in the
    /// segment.
    pub selection: (u32, usize),
}

impl MemorySegments {
    /// What `update` makes of the aggregator. Without a snapshot nothing
    /// changes. With one, the snapshot's records are recorded in the
    /// history one after the other and the snapshot replaces the one at
    /// hand; the selection stays.
    pub open spec fn updated(self, sample: Option<MemorySnapshot>, after: Self) -> bool {
        match sample {
            None => after == self,
            Some(snapshot) => {
                &&& after.segments == Some(snapshot)
                &&& after.selection == self.selection
                &&& after.used_chunks_history.spec_capacity()
                    == self.used_chunks_history.spec_capacity()
                &&& after.used_chunks_history@ == recorded_all(
                    self.used_chunks_history@,
                    self.used_chunks_history.spec_capacity(),
                    snapshot_records(snapshot.segments@),
                )
            },
        }
    }

    /// What a step forward makes of the aggregator: the selection moves to
    /// the pool that follows it in the walk, and stays where no pool
    /// follows or no snapshot is at hand.
    pub open spec fn stepped_next(self, after: Self) -> bool {
        &&& after.segments == self.segments
        &&& after.used_chunks_history == self.used_chunks_history
        &&& match self.segments {
            Some(snapshot) => if has_next(snapshot.segments@, self.selection) {
                is_next(snapshot.segments@, self.selection, after.selection)
            } else {
                after.selection == self.selection
            },
            None => after.selection == self.selection,
        }
    }

    /// What a step back makes of the aggregator.
    pub open spec fn stepped_previous(self, after: Self) -> bool {
        &&& after.segments == self.segments
        &&& after.used_chunks_history == self.used_chunks_history
        &&& is_step_back(self.segments, self.selection, after.selection)
    }

    /// An aggregator that has seen no snapshot: no history, and the
    /// selection at pool 0 of the segment with id 0.
    pub fn new() -> (memory: Self)
        ensures
            memory.segments is None,
            memory.used_chunks_history@ == Map::<(u32, usize), Seq<UsageSample>>::empty(),
            memory.used_chunks_history.spec_capacity() == USED_CHUNKS_HISTORY_SIZE,
            memory.selection == (0u32, 0usize),
    {
        MemorySegments {
            segments: None,
            used_chunks_history: HistoryTracker::new(USED_CHUNKS_HISTORY_SIZE),
            selection: (0, 0),
        }
    }

    /// Takes in the latest snapshot of the memory topic, if one arrived.
    ///
    /// Without a snapshot nothing changes. With one, the usage of every
    /// pool with a known utilization is recorded in the history, segment by
    /// segment and pool by pool, and the snapshot replaces the one at hand.
    /// The selection stays where it is.
    pub fn update(&mut self, sample: Option<MemorySnapshot>)
        ensures
            old(self).updated(sample, *final(self)),
    {
        if let Some(snapshot) = sample {
            let ghost history = self.used_chunks_history@;
            let ghost capacity = self.used_chunks_history.spec_capacity();
            let segment_count = snapshot.segments.len();
            let mut i: usize = 0;
            while i < segment_count
                invariant
                    i <= segment_count,
                    segment_count == snapshot.segments@.len(),
                    self.segments == old(self).segments,
                    self.selection == old(self).selection,
                    self.used_chunks_history.spec_capacity() == capacity,
                    self.used_chunks_history@ == recorded_all(
                        history,
                        capacity,
                        snapshot_records(snapshot.segments@.take(i as int)),
                    ),
                decreases segment_count - i,
            {
                let segment = &snapshot.segments[i];
                let ghost seen = snapshot_records(snapshot.segments@.take(i as int));
                let ghost at_segment = self.used_chunks_history@;
                let pool_count = segment.mempools.len();
                let mut j: usize = 0;
                while j < pool_count
                    invariant
                        j <= pool_count,
                        pool_count == segment.mempools@.len(),
                        self.segments == old(self).segments,
                        self.selection == old(self).selection,
                        self.used_chunks_history.spec_capacity() == capacity,
                        self.used_chunks_history@ == recorded_all(
                            at_segment,
                            capacity,
                            pool_records(segment.segment_id, segment.mempools@.take(j as int)),
                        ),
                    decreases pool_count - j,
                {
                    let ghost noted = pool_records(
                        segment.segment_id,
                        segment.mempools@.take(j as int),
                    );
                    proof {
                        assert(segment.mempools@.take(j + 1).drop_last() =~= segment.mempools@.take(
                            j as int,
                        ));
                    }
                    match measure(&segment.mempools[j]) {
                        Some(sample) => {
                            self.used_chunks_history.record((segment.segment_id, j), sample);
                            proof {
                                let record = ((segment.segment_id, j), sample);
                                assert(noted.push(record).drop_last() =~= noted);
                            }
                        },
                        None => {},
                    }
                    j = j + 1;
                }
                proof {
                    assert(segment.mempools@.take(pool_count as int) =~= segment.mempools@);
                    assert(snapshot.segments@.take(i + 1).drop_last() =~= snapshot.segments@.take(
                        i as int,
                    ));
                    lemma_recorded_all_concat(
                        history,
                        capacity,
                        seen,
                        pool_records(segment.segment_id, segment.mempools@),
                    );
                }
                i = i + 1;
            }
            assert(snapshot.segments@.take(segment_count as int) =~= snapshot.segments@);
            self.segments = Some(snapshot);
        }
    }

    /// Moves the selection to the next pool: the next pool of the selected
    /// segment, or the first pool of the segment with the next higher id that
    /// has one. Where no pool follows, or no snapshot is at hand, the
    /// selection stays.
    pub fn selection_next(&mut self)
        ensures
            old(self).stepped_next(*final(self)),
    {
        let from = self.selection;
        match &self.segments {
            Some(snapshot) => {
                let ghost segments = snapshot.segments@;
                let count = snapshot.segments.len();
                let mut best: Option<(u32, usize)> = None;
                let mut i: usize = 0;
                while i < count
                    invariant
                        i <= count,
                        count == segments.len(),
                        segments == snapshot.segments@,
                        match best {
                            Some(to) => is_next(segments.take(i as int), from, to),
                            None => !has_next(segments.take(i as int), from),
                        },
                    decreases count - i,
                {
                    let segment = &snapshot.segments[i];
                    let id = segment.segment_id;
                    let pools = segment.mempools.len();
                    // The first pool of this segment that follows the selection.
                    let found: Option<(u32, usize)> = if id == from.0 {
                        if pools > 0 && from.1 < pools - 1 {
                            Some((id, from.1 + 1))
                        } else {
                            None
                        }
                    } else if id > from.0 && pools > 0 {
                        Some((id, 0))
                    } else {
                        None
                    };
                    let ghost before = best;
                    best = match (best, found) {
                        (Some(to), Some(nearer)) => if stands_before(nearer, to) {
                            Some(nearer)
                        } else {
                            Some(to)
                        },
                        (Some(to), None) => Some(to),
                        (None, nearer) => nearer,
                    };
                    proof {
                        let fewer = segments.take(i as int);
                        let more = segments.take(i + 1);
                        assert forall|other: (u32, usize)| #[trigger]
                            selectable(more, other) && walks_before(from, other) implies (
                        match best {
                            Some(to) => !walks_before(other, to),
                            None => false,
                        }) by {
                            lemma_selectable_one_more(segments, i as int, other);
                            if selectable(fewer, other) {
                                assert(has_next(fewer, from));
                            }
                        }
                        match best {
                            Some(to) => {
                                lemma_selectable_one_more(segments, i as int, to);
                            },
                            None => {},
                        }
                    }
                    i = i + 1;
                }
                assert(segments.take(count as int) =~= segments);
                match best {
                    Some(to) => {
                        self.selection = to;
                    },
                    None => {},
                }
            },
            None => {},
        }
    }

    /// Moves the selection to the previous pool: the pool before it in the
    /// selected segment, or the last pool of the segment with the next lower
    /// id that has one. Where no pool stands before, or no snapshot is at
    /// hand, the selection stays.
    pub fn selection_previous(&mut self)
        ensures
            old(self).stepped_previous(*final(self)),
    {
        let from = self.selection;
        if from.1 > 0 {
            self.selection = (from.0, from.1 - 1);
            return ;
        }
        match &self.segments {
            Some(snapshot) => {
                let ghost segments = snapshot.segments@;
                let count = snapshot.segments.len();
                let mut best: Option<(u32, usize)> = None;
                let mut i: usize = 0;
                while i < count
                    invariant
                        i <= count,
                        count == segments.len(),
                        segments == snapshot.segments@,
                        from.1 == 0,
                        match best {
                            Some(to) => is_previous(segments.take(i as int), from, to),
                            None => !has_previous(segments.take(i as int), from),
                        },
                    decreases count - i,
                {
                    let segment = &snapshot.segments[i];
                    let id = segment.segment_id;
                    let pools = segment.mempools.len();
                    // The last pool of this segment that stands before the
                    // selection.
                    let found: Option<(u32, usize)> = if id < from.0 && pools > 0 {
                        Some((id, pools - 1))
                    } else {
                        None
                    };
                    best = match (best, found) {
                        (Some(to), Some(nearer)) => if stands_before(to, nearer) {
                            Some(nearer)
                        } else {
                            Some(to)
                        },
                        (Some(to), None) => Some(to),
                        (None, nearer) => nearer,
                    };
                    proof {
                        let fewer = segments.take(i as int);
                        let more = segments.take(i + 1);
                        assert forall|other: (u32, usize)| #[trigger]
                            selectable(more, other) && walks_before(other, from) implies (
                        match best {
                            Some(to) => !walks_before(to, other),
                            None => false,
                        }) by {
                            lemma_selectable_one_more(segments, i as int, other);
                            if selectable(fewer, other) {
                                assert(has_previous(fewer, from));
                            }
                        }
                        match best {
                            Some(to) => {
                                lemma_selectable_one_more(segments, i as int, to);
                            },
                            None => {},
                        }
                    }
                    i = i + 1;
                }
                assert(segments.take(count as int) =~= segments);
                match best {
                    Some(to) => {
                        self.selection = to;
                    },
                    None => {},
                }
            },
            None => {},
        }
    }
}

} // verus!
