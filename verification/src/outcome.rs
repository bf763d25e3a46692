use vstd::prelude::*;

verus! {

/// Why a transfer failed, by stage.
#[derive(Debug)]
pub enum DownloadError {
    /// The server answered the probe or a fetch with this non-success status.
    UnreachableSource(u16),
    /// A connection, stream or file failure, with its cause.
    TransportError(String),
    /// The worker of this chunk exhausted its attempts; the cause of the last
    /// failure is kept.
    ChunkFailed(usize, String),
    /// The task of this chunk ended without reporting an outcome.
    WorkerCrashed(usize),
}

/// What one worker's task reported when it finished.
#[derive(Debug)]
pub enum WorkerReport {
    /// The chunk was fetched and written in full.
    Completed,
    /// The worker gave up after exhausting its attempts, for this cause.
    Failed(String),
    /// The task ended abnormally, reporting nothing.
    Crashed,
}

/// One worker's outcome, tagged with its chunk index.
#[derive(Debug)]
pub struct WorkerOutcome {
    pub index: usize,
    pub report: WorkerReport,
}

impl WorkerReport {
    pub fn is_completed(&self) -> (b: bool)
        ensures
            b == (self is Completed),
    {
        match self {
            WorkerReport::Completed => true,
            _ => false,
        }
    }
}

/// The error a non-completed outcome turns into.
pub open spec fn report_error(o: WorkerOutcome) -> DownloadError {
    match o.report {
        WorkerReport::Completed => vstd::pervasive::arbitrary(),
        WorkerReport::Failed(cause) => DownloadError::ChunkFailed(o.index, cause),
        WorkerReport::Crashed => DownloadError::WorkerCrashed(o.index),
    }
}

/// Every worker reported completion.
pub open spec fn all_completed(s: Seq<WorkerOutcome>) -> bool {
    forall|i: int| 0 <= i < s.len() ==> (#[trigger] s[i]).report is Completed
}

/// Aggregate the outcomes in the order the workers finished: the transfer
/// succeeded exactly when every worker completed. Otherwise the whole
/// transfer fails with the error of the first outcome, in that order, that is
/// not a completion — a failed chunk invalidates the entire output.
#[verifier::loop_isolation(false)]
pub fn first_failure(outcomes: Vec<WorkerOutcome>) -> (r: Result<(), DownloadError>)
    ensures
        r is Ok <==> all_completed(outcomes@),
        !all_completed(outcomes@) ==> (exists|b: int|
            0 <= b < outcomes@.len() && !((#[trigger] outcomes@[b]).report is Completed)
                && all_completed(outcomes@.subrange(0, b)) && r == Result::<
                (),
                DownloadError,
            >::Err(report_error(outcomes@[b]))),
{
    let ghost entry = outcomes@;
    let mut outcomes = outcomes;
    let n: usize = outcomes.len();
    let mut b: usize = 0;
    while b < n
        invariant
            0 <= b <= n,
            outcomes@ == entry,
            n == entry.len(),
            all_completed(entry.subrange(0, b as int)),
        decreases n - b,
    {
        if !outcomes[b].report.is_completed() {
            let o: WorkerOutcome = outcomes.remove(b);
            let WorkerOutcome { index, report } = o;
            let r: Result<(), DownloadError> = match report {
                // Not reached: this outcome was just checked not to be a
                // completion.
                WorkerReport::Completed => Result::Err(DownloadError::WorkerCrashed(index)),
                WorkerReport::Failed(cause) => Result::Err(
                    DownloadError::ChunkFailed(index, cause),
                ),
                WorkerReport::Crashed => Result::Err(DownloadError::WorkerCrashed(index)),
            };
            proof {
                assert(0 <= b < entry.len() && !((entry[b as int]).report is Completed)
                    && all_completed(entry.subrange(0, b as int)) && r == Result::<
                    (),
                    DownloadError,
                >::Err(report_error(entry[b as int])));
            }
            return r;
        }
        proof {
            assert(entry.subrange(0, b as int + 1) =~= entry.subrange(0, b as int).push(
                entry[b as int],
            ));
        }
        b = b + 1;
    }
    proof {
        assert(entry.subrange(0, n as int) =~= entry);
    }
    Result::Ok(())
}

} // verus!
