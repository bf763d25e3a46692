use vstd::prelude::*;

verus! {

/// Download strategy chosen for one transfer.
#[derive(Clone, Copy, PartialEq, Eq, Structural, Debug)]
pub enum Mode {
    /// Sequential whole-resource download.
    SingleStream,
    /// Concurrent range requests, one worker per chunk.
    Partitioned,
}

/// Resources smaller than this many bytes are never partitioned.
pub const PARTITION_THRESHOLD: u64 = 1048576;

/// The single branch point of the design: partition exactly when the size is
/// known, at least `PARTITION_THRESHOLD`, the server accepts byte ranges, and
/// more than one worker was requested. In every other case the conservative
/// single-stream fallback runs.
pub fn decide_mode(total_size: Option<u64>, accepts_ranges: bool, worker_count: u8) -> (m: Mode)
    ensures
        m is Partitioned <==> (total_size matches Some(s) && s >= PARTITION_THRESHOLD
            && accepts_ranges && worker_count >= 2),
{
    match total_size {
        Option::None => Mode::SingleStream,
        Option::Some(s) => {
            if accepts_ranges && s >= PARTITION_THRESHOLD && worker_count >= 2 {
                Mode::Partitioned
            } else {
                Mode::SingleStream
            }
        },
    }
}

} // verus!
