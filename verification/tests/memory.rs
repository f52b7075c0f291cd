use iceray::history::UsageSample;
use iceray::introspection::MemPoolInfo;
use iceray::introspection::MemorySegment;
use iceray::introspection::MemorySnapshot;
use iceray::memory::measure;
use iceray::memory::MemorySegments;
use iceray::memory::USED_CHUNKS_HISTORY_SIZE;

fn pool(used: u32, total: u32) -> MemPoolInfo {
    MemPoolInfo {
        used_chunks: used,
        min_free_chunks: total.saturating_sub(used),
        total_chunks: total,
        chunk_size: 128,
        payload_size: 64,
    }
}

fn segment(id: u32, pools: Vec<MemPoolInfo>) -> MemorySegment {
    MemorySegment {
        segment_id: id,
        writer_group: Some("writers".to_string()),
        reader_group: Some("readers".to_string()),
        mempools: pools,
    }
}

/// A snapshot whose segments are numbered by their place and have the given
/// numbers of pools.
fn layout(pools_per_segment: &[usize]) -> MemorySnapshot {
    let mut segments = Vec::new();
    for (id, count) in pools_per_segment.iter().enumerate() {
        segments.push(segment(id as u32, vec![pool(1, 10); *count]));
    }
    MemorySnapshot { segments }
}

fn utilization(sample: &UsageSample) -> f64 {
    sample.used_chunks as f64 / sample.total_chunks as f64 * 100f64
}

fn utilizations(memory: &MemorySegments, key: (u32, usize)) -> Option<Vec<f64>> {
    memory.used_chunks_history.get(key).map(|series| series.iter().map(utilization).collect())
}

fn with_layout(pools_per_segment: &[usize], selection: (u32, usize)) -> MemorySegments {
    let mut memory = MemorySegments::new();
    memory.update(Some(layout(pools_per_segment)));
    memory.selection = selection;
    memory
}

#[test]
fn memory_starts_without_snapshot_and_history() {
    let memory = MemorySegments::new();
    assert!(memory.segments.is_none());
    assert_eq!(memory.selection, (0, 0));
    assert!(memory.used_chunks_history.get((0, 0)).is_none());
    assert_eq!(memory.used_chunks_history.capacity(), USED_CHUNKS_HISTORY_SIZE);
    assert_eq!(USED_CHUNKS_HISTORY_SIZE, 120);
}

#[test]
fn three_snapshots_give_three_samples_in_order() {
    let mut memory = MemorySegments::new();
    for used in [10u32, 12, 11] {
        let snapshot =
            MemorySnapshot { segments: vec![segment(0, vec![]), segment(1, vec![pool(used, 100)])] };
        memory.update(Some(snapshot));
    }
    assert_eq!(utilizations(&memory, (1, 0)), Some(vec![10.0, 12.0, 11.0]));
    assert_eq!(utilizations(&memory, (0, 0)), None);
}

#[test]
fn utilization_is_used_over_total_times_hundred() {
    let mut memory = MemorySegments::new();
    memory.update(Some(MemorySnapshot {
        segments: vec![segment(
            4,
            vec![pool(50, 200), pool(0, 7), pool(7, 7), pool(1, 3), pool(2, 3)],
        )],
    }));
    assert_eq!(utilizations(&memory, (4, 0)), Some(vec![25.0]));
    assert_eq!(utilizations(&memory, (4, 1)), Some(vec![0.0]));
    assert_eq!(utilizations(&memory, (4, 2)), Some(vec![100.0]));
    assert_eq!(utilizations(&memory, (4, 3)), Some(vec![1f64 / 3f64 * 100f64]));
    assert_eq!(utilizations(&memory, (4, 4)), Some(vec![2f64 / 3f64 * 100f64]));
    let stored = memory.used_chunks_history.get((4, 3)).unwrap()[0];
    assert_eq!(stored, UsageSample { used_chunks: 1, total_chunks: 3 });
}

#[test]
fn measure_gives_no_sample_for_a_pool_without_chunks() {
    assert_eq!(measure(&pool(0, 0)), None);
    assert_eq!(measure(&pool(5, 0)), None);
    assert_eq!(measure(&pool(5, 8)), Some(UsageSample { used_chunks: 5, total_chunks: 8 }));
    assert_eq!(
        measure(&pool(u32::MAX, u32::MAX)),
        Some(UsageSample { used_chunks: u32::MAX, total_chunks: u32::MAX })
    );
}

#[test]
fn pool_without_chunks_is_not_recorded() {
    let mut memory = MemorySegments::new();
    memory.update(Some(MemorySnapshot {
        segments: vec![segment(0, vec![pool(0, 0), pool(3, 4)])],
    }));
    assert_eq!(utilizations(&memory, (0, 0)), None);
    assert_eq!(utilizations(&memory, (0, 1)), Some(vec![75.0]));
    // The pool reports chunks on the next tick: its series starts there.
    memory.update(Some(MemorySnapshot {
        segments: vec![segment(0, vec![pool(1, 4), pool(0, 0)])],
    }));
    assert_eq!(utilizations(&memory, (0, 0)), Some(vec![25.0]));
    assert_eq!(utilizations(&memory, (0, 1)), Some(vec![75.0]));
}

#[test]
fn memory_update_without_snapshot_changes_nothing() {
    let mut memory = MemorySegments::new();
    memory.update(Some(layout(&[2, 1])));
    memory.selection = (1, 0);
    memory.update(None);
    assert_eq!(memory.selection, (1, 0));
    assert_eq!(memory.segments.as_ref().unwrap().segments.len(), 2);
    assert_eq!(memory.used_chunks_history.get((0, 0)).unwrap().len(), 1);
    assert_eq!(memory.used_chunks_history.get((0, 1)).unwrap().len(), 1);
    assert_eq!(memory.used_chunks_history.get((1, 0)).unwrap().len(), 1);
}

#[test]
fn memory_update_replaces_the_snapshot_and_keeps_the_selection() {
    let mut memory = MemorySegments::new();
    memory.update(Some(layout(&[2, 1])));
    memory.selection = (1, 0);
    memory.update(Some(layout(&[1])));
    let held = memory.segments.as_ref().unwrap();
    assert_eq!(held.segments.len(), 1);
    assert_eq!(held.segments[0].mempools.len(), 1);
    // The selection is not relocated, though its pool is gone.
    assert_eq!(memory.selection, (1, 0));
    // The history of the pools that are gone stays.
    assert_eq!(memory.used_chunks_history.get((1, 0)).unwrap().len(), 1);
    assert_eq!(memory.used_chunks_history.get((0, 0)).unwrap().len(), 2);
}

#[test]
fn memory_history_is_keyed_by_segment_id_not_by_place() {
    let mut memory = MemorySegments::new();
    memory.update(Some(MemorySnapshot {
        segments: vec![segment(7, vec![pool(1, 2)]), segment(3, vec![pool(1, 4), pool(3, 4)])],
    }));
    assert_eq!(utilizations(&memory, (7, 0)), Some(vec![50.0]));
    assert_eq!(utilizations(&memory, (3, 0)), Some(vec![25.0]));
    assert_eq!(utilizations(&memory, (3, 1)), Some(vec![75.0]));
    assert_eq!(utilizations(&memory, (0, 0)), None);
    assert_eq!(utilizations(&memory, (1, 0)), None);
}

#[test]
fn memory_records_twice_for_a_segment_id_that_comes_twice() {
    let mut memory = MemorySegments::new();
    memory.update(Some(MemorySnapshot {
        segments: vec![segment(2, vec![pool(1, 10)]), segment(2, vec![pool(2, 10)])],
    }));
    assert_eq!(utilizations(&memory, (2, 0)), Some(vec![10.0, 20.0]));
}

#[test]
fn memory_history_holds_the_latest_120_samples() {
    let mut memory = MemorySegments::new();
    for tick in 0..130u32 {
        memory.update(Some(MemorySnapshot { segments: vec![segment(0, vec![pool(tick, 1000)])] }));
    }
    let series = memory.used_chunks_history.get((0, 0)).unwrap();
    assert_eq!(series.len(), 120);
    assert_eq!(series[0].used_chunks, 10);
    assert_eq!(series[119].used_chunks, 129);
}

#[test]
fn selection_next_moves_within_the_segment() {
    let mut memory = with_layout(&[3, 2], (0, 0));
    memory.selection_next();
    assert_eq!(memory.selection, (0, 1));
    memory.selection_next();
    assert_eq!(memory.selection, (0, 2));
}

#[test]
fn selection_next_moves_to_the_first_pool_of_the_next_segment() {
    let mut memory = with_layout(&[3, 2], (0, 2));
    memory.selection_next();
    assert_eq!(memory.selection, (1, 0));
}

#[test]
fn selection_next_passes_over_segments_without_pools() {
    let mut memory = with_layout(&[2, 0, 0, 1], (0, 1));
    memory.selection_next();
    assert_eq!(memory.selection, (3, 0));
}

#[test]
fn selection_next_stays_at_the_last_pool() {
    let mut memory = with_layout(&[3, 2], (1, 1));
    memory.selection_next();
    assert_eq!(memory.selection, (1, 1));
    let mut memory = with_layout(&[3, 0, 0], (0, 2));
    memory.selection_next();
    assert_eq!(memory.selection, (0, 2));
}

#[test]
fn selection_next_stays_without_snapshot() {
    let mut memory = MemorySegments::new();
    memory.selection_next();
    assert_eq!(memory.selection, (0, 0));
}

#[test]
fn selection_next_stays_over_a_snapshot_without_pools() {
    let mut memory = with_layout(&[], (0, 0));
    memory.selection_next();
    assert_eq!(memory.selection, (0, 0));
    let mut memory = with_layout(&[0, 0], (0, 0));
    memory.selection_next();
    assert_eq!(memory.selection, (0, 0));
}

#[test]
fn selection_next_from_a_stale_selection_finds_the_next_pool() {
    // The selected pool index is beyond the segment's pools.
    let mut memory = with_layout(&[1, 2], (0, 5));
    memory.selection_next();
    assert_eq!(memory.selection, (1, 0));
    // The selected segment is beyond the snapshot.
    let mut memory = with_layout(&[1, 2], (4, 0));
    memory.selection_next();
    assert_eq!(memory.selection, (4, 0));
    // The pool index cannot grow.
    let mut memory = with_layout(&[1, 2], (0, usize::MAX));
    memory.selection_next();
    assert_eq!(memory.selection, (1, 0));
}

#[test]
fn selection_previous_moves_within_the_segment() {
    let mut memory = with_layout(&[3, 2], (0, 2));
    memory.selection_previous();
    assert_eq!(memory.selection, (0, 1));
    memory.selection_previous();
    assert_eq!(memory.selection, (0, 0));
}

#[test]
fn selection_previous_moves_to_the_last_pool_of_the_segment_before() {
    let mut memory = with_layout(&[3, 2], (1, 0));
    memory.selection_previous();
    assert_eq!(memory.selection, (0, 2));
}

#[test]
fn selection_previous_stays_at_the_first_pool() {
    let mut memory = with_layout(&[3, 2], (0, 0));
    memory.selection_previous();
    assert_eq!(memory.selection, (0, 0));
}

#[test]
fn selection_previous_passes_over_segments_without_pools() {
    let mut memory = with_layout(&[2, 0, 3], (2, 0));
    memory.selection_previous();
    assert_eq!(memory.selection, (0, 1));
    let mut memory = with_layout(&[1, 0, 0, 0, 2], (4, 0));
    memory.selection_previous();
    assert_eq!(memory.selection, (0, 0));
}

#[test]
fn selection_previous_stays_where_no_pool_stands_before() {
    let mut memory = with_layout(&[0, 0, 1], (2, 0));
    memory.selection_previous();
    assert_eq!(memory.selection, (2, 0));
    let mut memory = with_layout(&[], (3, 0));
    memory.selection_previous();
    assert_eq!(memory.selection, (3, 0));
}

#[test]
fn selection_previous_without_snapshot_steps_within_the_segment_only() {
    let mut memory = MemorySegments::new();
    memory.selection = (3, 2);
    memory.selection_previous();
    assert_eq!(memory.selection, (3, 1));
    memory.selection = (3, 0);
    memory.selection_previous();
    assert_eq!(memory.selection, (3, 0));
}

#[test]
fn selection_previous_from_a_segment_that_is_gone_finds_the_pool_before() {
    let mut memory = with_layout(&[1], (5, 0));
    memory.selection_previous();
    assert_eq!(memory.selection, (0, 0));
    let mut memory = with_layout(&[2, 3], (5, 0));
    memory.selection_previous();
    assert_eq!(memory.selection, (1, 2));
}

#[test]
fn selection_goes_by_segment_id() {
    let segments = || MemorySnapshot {
        segments: vec![segment(5, vec![pool(1, 10); 2]), segment(9, vec![pool(1, 10); 2])],
    };
    let mut memory = MemorySegments::new();
    memory.update(Some(segments()));
    memory.selection = (5, 1);
    memory.selection_next();
    assert_eq!(memory.selection, (9, 0));
    memory.selection_next();
    assert_eq!(memory.selection, (9, 1));
    memory.selection_next();
    assert_eq!(memory.selection, (9, 1));
    memory.selection_previous();
    assert_eq!(memory.selection, (9, 0));
    memory.selection_previous();
    assert_eq!(memory.selection, (5, 1));
    memory.selection_previous();
    assert_eq!(memory.selection, (5, 0));
    memory.selection_previous();
    assert_eq!(memory.selection, (5, 0));
    // The selection at startup names no segment of this snapshot.
    memory.selection = (0, 0);
    memory.selection_next();
    assert_eq!(memory.selection, (5, 0));
    memory.selection = (7, 0);
    memory.selection_next();
    assert_eq!(memory.selection, (9, 0));
    memory.selection = (7, 0);
    memory.selection_previous();
    assert_eq!(memory.selection, (5, 1));
}

#[test]
fn selection_walks_in_ascending_id_order_whatever_the_order_of_delivery() {
    let mut memory = MemorySegments::new();
    memory.update(Some(MemorySnapshot {
        segments: vec![
            segment(9, vec![pool(1, 10); 2]),
            segment(2, vec![pool(1, 10); 1]),
            segment(7, vec![]),
            segment(5, vec![pool(1, 10); 2]),
        ],
    }));
    memory.selection = (2, 0);
    let mut walked = vec![memory.selection];
    for _ in 0..6 {
        memory.selection_next();
        walked.push(memory.selection);
    }
    assert_eq!(walked, vec![(2, 0), (5, 0), (5, 1), (9, 0), (9, 1), (9, 1), (9, 1)]);
    let mut walked = vec![memory.selection];
    for _ in 0..6 {
        memory.selection_previous();
        walked.push(memory.selection);
    }
    assert_eq!(walked, vec![(9, 1), (9, 0), (5, 1), (5, 0), (2, 0), (2, 0), (2, 0)]);
}

#[test]
fn step_forward_and_back_returns_to_the_pool() {
    for pools in [vec![3usize, 1, 2], vec![2, 0, 3], vec![0, 1, 0, 0, 2, 0], vec![4]] {
        let last = pools.iter().rposition(|count| *count > 0).unwrap();
        for (segment, count) in pools.iter().enumerate() {
            for index in 0..*count {
                let from = (segment as u32, index);
                if segment == last && index + 1 == *count {
                    continue;
                }
                let mut memory = with_layout(&pools, from);
                memory.selection_next();
                assert_ne!(memory.selection, from);
                memory.selection_previous();
                assert_eq!(memory.selection, from);
            }
        }
    }
}

#[test]
fn step_forward_and_back_at_the_last_pool_steps_back_once() {
    let mut memory = with_layout(&[3, 1, 2], (2, 1));
    memory.selection_next();
    assert_eq!(memory.selection, (2, 1));
    memory.selection_previous();
    assert_eq!(memory.selection, (2, 0));
}

#[test]
fn step_forward_over_an_empty_segment_is_undone_by_a_step_back() {
    let mut memory = with_layout(&[2, 0, 3], (0, 1));
    memory.selection_next();
    assert_eq!(memory.selection, (2, 0));
    memory.selection_previous();
    assert_eq!(memory.selection, (0, 1));
}

#[test]
fn steps_do_not_touch_snapshot_or_history() {
    let mut memory = with_layout(&[2, 2], (0, 1));
    memory.selection_next();
    memory.selection_previous();
    memory.selection_previous();
    assert_eq!(memory.segments.as_ref().unwrap().segments.len(), 2);
    assert_eq!(memory.used_chunks_history.get((0, 0)).unwrap().len(), 1);
    assert_eq!(memory.used_chunks_history.get((1, 1)).unwrap().len(), 1);
}
