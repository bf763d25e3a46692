use rget::decide::{decide_mode, Mode, PARTITION_THRESHOLD};

#[test]
fn unknown_size_forces_fallback() {
    assert_eq!(decide_mode(None, true, 4), Mode::SingleStream);
    assert_eq!(decide_mode(None, false, 4), Mode::SingleStream);
}

#[test]
fn small_file_forces_fallback() {
    // 500 KB is below the 1 MB partition threshold.
    assert_eq!(decide_mode(Some(500 * 1024), true, 4), Mode::SingleStream);
}

#[test]
fn no_range_support_forces_fallback() {
    assert_eq!(decide_mode(Some(10 * 1024 * 1024), false, 4), Mode::SingleStream);
}

#[test]
fn large_ranged_multiworker_is_partitioned() {
    assert_eq!(decide_mode(Some(10 * 1024 * 1024), true, 4), Mode::Partitioned);
}

#[test]
fn single_worker_forces_fallback() {
    assert_eq!(decide_mode(Some(10 * 1024 * 1024), true, 1), Mode::SingleStream);
    assert_eq!(decide_mode(Some(10 * 1024 * 1024), true, 0), Mode::SingleStream);
}

#[test]
fn threshold_boundary() {
    assert_eq!(PARTITION_THRESHOLD, 1024 * 1024);
    assert_eq!(decide_mode(Some(PARTITION_THRESHOLD - 1), true, 2), Mode::SingleStream);
    assert_eq!(decide_mode(Some(PARTITION_THRESHOLD), true, 2), Mode::Partitioned);
}
