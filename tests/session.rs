use segment_backup::{plan_entry, Action, BackupSession, EntryPlan, Phase, CHUNK_SIZE};

const MIB: u64 = 1024 * 1024;

/// Feeds the chunks to an open session; returns the bytes of each part, in order.
fn run(limit: u64, chunks: &[u64]) -> (BackupSession, Vec<u64>) {
    let mut s = BackupSession::new(limit);
    assert_eq!(s.confirm(true), Action::Open(0));
    let mut parts = vec![0u64];
    for &n in chunks {
        *parts.last_mut().unwrap() += n;
        match s.chunk_written(n) {
            Action::Continue => {}
            Action::Rollover { close, open } => {
                assert_eq!(close as usize, parts.len() - 1);
                assert_eq!(open, close + 1);
                parts.push(0);
            }
            other => panic!("unexpected action {:?}", other),
        }
    }
    (s, parts)
}

#[test]
fn ten_mib_file_with_four_mib_parts_gives_three_parts() {
    let chunks = vec![MIB; 10];
    let (mut s, parts) = run(4 * MIB, &chunks);
    assert_eq!(parts, vec![4 * MIB, 4 * MIB, 2 * MIB]);
    assert_eq!(s.segment_index(), 2);
    assert_eq!(s.bytes_in_segment(), 2 * MIB);
    assert_eq!(s.finish(), Action::Close(2));
    assert_eq!(s.phase(), Phase::Finished);
}

#[test]
fn declining_opens_nothing() {
    let mut s = BackupSession::new(4 * MIB);
    assert_eq!(s.phase(), Phase::AwaitingConfirmation);
    assert_eq!(s.confirm(false), Action::Exit);
    assert_eq!(s.phase(), Phase::Declined);
    assert_eq!(s.segment_index(), 0);
    assert_eq!(s.bytes_in_segment(), 0);
}

#[test]
fn confirming_opens_part_zero() {
    let mut s = BackupSession::new(100);
    assert_eq!(s.confirm(true), Action::Open(0));
    assert_eq!(s.phase(), Phase::SegmentOpen);
    assert_eq!(s.segment_size(), 100);
}

#[test]
fn every_byte_is_counted_once() {
    let chunks = vec![300, 5, 700, 1, 1, 999, 250, 42];
    let (s, parts) = run(512, &chunks);
    let total: u64 = chunks.iter().sum();
    assert_eq!(parts.iter().sum::<u64>(), total);
    assert_eq!(parts.len() as u64, s.segment_index() + 1);
    assert_eq!(*parts.last().unwrap(), s.bytes_in_segment());
}

#[test]
fn parts_overshoot_by_less_than_a_chunk() {
    let limit = 3 * MIB + 1;
    let chunks = vec![CHUNK_SIZE; 20];
    let (s, parts) = run(limit, &chunks);
    for p in &parts[..parts.len() - 1] {
        assert!(*p >= limit);
        assert!(*p < limit + CHUNK_SIZE);
    }
    assert!(s.bytes_in_segment() < limit);
}

#[test]
fn exact_fill_rolls_over_at_threshold() {
    let mut s = BackupSession::new(10);
    s.confirm(true);
    assert_eq!(s.chunk_written(4), Action::Continue);
    assert_eq!(s.chunk_written(6), Action::Rollover { close: 0, open: 1 });
    assert_eq!(s.bytes_in_segment(), 0);
    assert_eq!(s.chunk_written(9), Action::Continue);
    assert_eq!(s.bytes_in_segment(), 9);
}

#[test]
fn tiny_threshold_rolls_after_every_chunk() {
    let (s, parts) = run(1, &[1, 2, 3]);
    assert_eq!(parts, vec![1, 2, 3, 0]);
    assert_eq!(s.segment_index(), 3);
}

#[test]
fn empty_run_has_one_part() {
    let (mut s, parts) = run(CHUNK_SIZE, &[]);
    assert_eq!(parts, vec![0]);
    assert_eq!(s.finish(), Action::Close(0));
}

#[test]
fn entries_are_dispatched_by_kind() {
    assert_eq!(plan_entry(true, false), EntryPlan::StreamChunks);
    assert_eq!(plan_entry(false, true), EntryPlan::WholeDirectory);
    assert_eq!(plan_entry(false, false), EntryPlan::Skip);
}
