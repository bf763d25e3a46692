use rget::plan::{plan_chunks, ByteRange};
use rget::header::chunk_request;

/// Check that `plan` covers [0, total) exactly once, with `workers` entries.
fn assert_partition(plan: &Vec<ByteRange>, total: u64, workers: u8) {
    assert_eq!(plan.len(), workers as usize);
    let mut hits = vec![0u32; total as usize];
    for r in plan {
        if r.start <= r.end {
            assert!(r.end < total, "range runs past the resource");
            for k in r.start..=r.end {
                hits[k as usize] += 1;
            }
        }
    }
    for (k, h) in hits.iter().enumerate() {
        assert_eq!(*h, 1, "byte {} covered {} times", k, h);
    }
}

#[test]
fn splits_ten_bytes_across_three_workers() {
    let plan = plan_chunks(10, 3);
    assert_eq!(plan[0], ByteRange { start: 0, end: 3 });
    assert_eq!(plan[1], ByteRange { start: 4, end: 7 });
    assert_eq!(plan[2], ByteRange { start: 8, end: 9 });
    assert_partition(&plan, 10, 3);
}

#[test]
fn partitions_exactly_for_many_shapes() {
    for &total in &[1u64, 2, 3, 7, 16, 100, 1023, 1024, 1025] {
        for workers in 1u8..=9 {
            let plan = plan_chunks(total, workers);
            assert_partition(&plan, total, workers);
        }
    }
}

#[test]
fn ranges_are_contiguous_and_ascending() {
    let plan = plan_chunks(1000, 7);
    let mut next_start = 0u64;
    for r in &plan {
        if r.start <= r.end {
            assert_eq!(r.start, next_start);
            next_start = r.end + 1;
        }
    }
    assert_eq!(next_start, 1000);
}

#[test]
fn workers_beyond_size_get_empty_ranges() {
    let plan = plan_chunks(5, 8);
    for i in 0..5 {
        assert_eq!(plan[i], ByteRange { start: i as u64, end: i as u64 });
    }
    for i in 5..8 {
        assert!(plan[i].start > plan[i].end, "worker {} should be idle", i);
        assert!(plan[i].start >= 5);
    }
    assert_partition(&plan, 5, 8);
}

#[test]
fn empty_ranges_issue_no_request() {
    let plan = plan_chunks(5, 8);
    for (i, r) in plan.iter().enumerate() {
        let req = chunk_request(r);
        if i < 5 {
            assert!(req.is_some());
        } else {
            assert!(req.is_none(), "an idle worker must not touch the network");
        }
    }
}

#[test]
fn five_million_bytes_four_workers() {
    let plan = plan_chunks(5_000_000, 4);
    assert_eq!(plan[0], ByteRange { start: 0, end: 1_249_999 });
    assert_eq!(plan[1], ByteRange { start: 1_250_000, end: 2_499_999 });
    assert_eq!(plan[2], ByteRange { start: 2_500_000, end: 3_749_999 });
    assert_eq!(plan[3], ByteRange { start: 3_750_000, end: 4_999_999 });
    assert_partition(&plan, 5_000_000, 4);
}

#[test]
fn single_worker_takes_everything() {
    let plan = plan_chunks(1_048_576, 1);
    assert_eq!(plan.len(), 1);
    assert_eq!(plan[0], ByteRange { start: 0, end: 1_048_575 });
}
