use process_1bilrows::chunking::ChunkBuffer;
use process_1bilrows::config::{chunk_size, worker_count, DEFAULT_CHUNK_SIZE};
use process_1bilrows::progress::{progress_basis_points, total_chunks, Progress, COMPLETE};

#[test]
fn chunk_count_is_ceiling() {
    assert_eq!(total_chunks(0, 100_000), 0);
    assert_eq!(total_chunks(3, 2), 2);
    assert_eq!(total_chunks(4, 2), 2);
    assert_eq!(total_chunks(1, 1000), 1);
    assert_eq!(total_chunks(usize::MAX, 2), usize::MAX / 2 + 1);
}

#[test]
fn progress_values() {
    assert_eq!(progress_basis_points(0, 0), COMPLETE);
    assert_eq!(progress_basis_points(1, 2), 5000);
    assert_eq!(progress_basis_points(1, 3), 3333);
    assert_eq!(progress_basis_points(3, 3), 10000);
    assert_eq!(progress_basis_points(usize::MAX - 1, usize::MAX), 9999);
}

#[test]
fn progress_is_monotone_and_ends_complete() {
    let mut p = Progress::new(7);
    let mut last = 0;
    for _ in 0..7 {
        let now = p.record_merge();
        assert!(now >= last);
        last = now;
    }
    assert_eq!(last, COMPLETE);
    assert_eq!(p.current(), COMPLETE);
    assert_eq!(p.finish(), COMPLETE);
}

#[test]
fn empty_input_is_complete_at_once() {
    let total = total_chunks(0, DEFAULT_CHUNK_SIZE);
    assert_eq!(total, 0);
    let p = Progress::new(total);
    assert_eq!(p.current(), COMPLETE);
}

#[test]
fn chunk_buffer_cuts_fixed_sizes() {
    let mut b = ChunkBuffer::new(2);
    assert_eq!(b.push_line("A:3".to_string()), None);
    assert_eq!(b.push_line("B:5".to_string()), Some(vec!["A:3".to_string(), "B:5".to_string()]));
    assert_eq!(b.push_line("A:7".to_string()), None);
    assert_eq!(b.finish(), Some(vec!["A:7".to_string()]));
    let empty = ChunkBuffer::new(3);
    assert_eq!(empty.finish(), None);
}

#[test]
fn settings_defaults() {
    assert_eq!(worker_count(Some(4)), 4);
    assert!(worker_count(None) >= 1);
    assert!(worker_count(Some(0)) >= 1);
    assert_eq!(chunk_size(None), DEFAULT_CHUNK_SIZE);
    assert_eq!(chunk_size(Some(0)), DEFAULT_CHUNK_SIZE);
    assert_eq!(chunk_size(Some(2)), 2);
}

#[test]
fn progress_counts_merges() {
    let mut p = Progress::new(4);
    assert_eq!(p.merged(), 0);
    assert_eq!(p.current(), 0);
    assert_eq!(p.record_merge(), 2500);
    assert_eq!(p.merged(), 1);
}
