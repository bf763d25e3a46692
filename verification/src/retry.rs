use vstd::prelude::*;

verus! {

/// Greatest number of fetch attempts a worker makes for one chunk.
pub const MAX_ATTEMPTS: u64 = 3;

/// What a worker does after one fetch attempt.
pub enum AttemptDecision {
    /// The attempt succeeded: the chunk is done.
    Done,
    /// The attempt failed with attempts left: wait this many milliseconds,
    /// then try again.
    RetryAfterMillis(u64),
    /// The final attempt failed: report the failure and stop.
    GiveUp,
}

/// One step of the per-chunk retry state machine. A failed attempt is retried
/// after a tiered pause of `attempt` seconds, until the attempt ceiling is
/// reached; the first success ends the loop.
pub fn next_attempt_action(attempt: u64, failed: bool) -> (d: AttemptDecision)
    requires
        1 <= attempt <= MAX_ATTEMPTS,
    ensures
        !failed ==> d is Done,
        failed && attempt < MAX_ATTEMPTS ==> (d matches AttemptDecision::RetryAfterMillis(ms)
            && ms == 1000 * attempt),
        failed && attempt == MAX_ATTEMPTS ==> d is GiveUp,
{
    if !failed {
        AttemptDecision::Done
    } else if attempt < MAX_ATTEMPTS {
        AttemptDecision::RetryAfterMillis(1000 * attempt)
    } else {
        AttemptDecision::GiveUp
    }
}

/// Summary of one worker's whole retry loop.
pub struct RetryRun {
    /// Whether some attempt within the budget succeeded.
    pub succeeded: bool,
    /// How many attempts were made.
    pub attempts_used: u64,
    /// Total backoff pause, in milliseconds, between the attempts made.
    pub waited_millis: u64,
}

/// Drive the retry state machine over per-attempt outcomes (`outcomes[k]`
/// tells whether attempt `k + 1` would succeed): the chunk succeeds exactly
/// when one of the first `MAX_ATTEMPTS` attempts succeeds, no attempt is made
/// after the first success or past the ceiling, and the pauses taken are the
/// tiered delays of the failed attempts that were retried.
pub fn simulate_retry(outcomes: &Vec<bool>) -> (r: RetryRun)
    requires
        outcomes@.len() >= MAX_ATTEMPTS,
    ensures
        r.succeeded == (outcomes@[0] || outcomes@[1] || outcomes@[2]),
        r.attempts_used == (if outcomes@[0] {
            1int
        } else if outcomes@[1] {
            2int
        } else {
            3int
        }),
        r.waited_millis == (if outcomes@[0] {
            0int
        } else if outcomes@[1] {
            1000int
        } else {
            3000int
        }),
{
    let mut attempt: u64 = 1;
    let mut waited: u64 = 0;
    loop
        invariant
            1 <= attempt <= MAX_ATTEMPTS,
            outcomes@.len() >= MAX_ATTEMPTS,
            attempt == 1 ==> waited == 0,
            attempt == 2 ==> !outcomes@[0] && waited == 1000,
            attempt == 3 ==> !outcomes@[0] && !outcomes@[1] && waited == 3000,
        decreases MAX_ATTEMPTS - attempt,
    {
        let failed: bool = !outcomes[(attempt - 1) as usize];
        match next_attempt_action(attempt, failed) {
            AttemptDecision::Done => {
                return RetryRun { succeeded: true, attempts_used: attempt, waited_millis: waited };
            },
            AttemptDecision::RetryAfterMillis(ms) => {
                waited = waited + ms;
                attempt = attempt + 1;
            },
            AttemptDecision::GiveUp => {
                return RetryRun { succeeded: false, attempts_used: attempt, waited_millis: waited };
            },
        }
    }
}

} // verus!
