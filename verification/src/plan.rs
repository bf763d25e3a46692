use vstd::prelude::*;
use vstd::arithmetic::div_mod::{
    lemma_fundamental_div_mod, lemma_div_pos_is_pos, lemma_mod_division_less_than_divisor,
    lemma_div_plus_one,
};
use vstd::arithmetic::mul::{lemma_mul_inequality, lemma_mul_is_commutative};

verus! {

/// One worker's assignment: the inclusive span [start, end] of the resource's
/// bytes. The span is empty exactly when `start > end`; an empty span means
/// the worker has nothing to fetch and must stay idle.
#[derive(Clone, Copy, PartialEq, Eq, Structural, Debug)]
pub struct ByteRange {
    pub start: u64,
    pub end: u64,
}

/// Byte offset `k` lies inside the inclusive span of `r`.
pub open spec fn in_range(r: ByteRange, k: int) -> bool {
    r.start <= k <= r.end
}

/// Number of bytes spanned by `r`.
pub open spec fn range_len(r: ByteRange) -> int {
    if r.start <= r.end {
        r.end - r.start + 1
    } else {
        0
    }
}

/// Ceiling division: the per-worker chunk size used by the planner.
pub open spec fn chunk_size_of(total: int, workers: int) -> int
    recommends
        workers >= 1,
{
    (total + workers - 1) / workers
}

/// Start offset the planner assigns to worker `i`.
pub open spec fn planned_start(total: int, workers: int, i: int) -> int {
    i * chunk_size_of(total, workers)
}

/// Inclusive end offset the planner assigns to worker `i`: the next worker's
/// start, clipped to the resource size, minus one.
pub open spec fn planned_end(total: int, workers: int, i: int) -> int {
    if (i + 1) * chunk_size_of(total, workers) < total {
        (i + 1) * chunk_size_of(total, workers) - 1
    } else {
        total - 1
    }
}

/// Some range of the plan covers byte offset `k`.
pub open spec fn covered(plan: Seq<ByteRange>, k: int) -> bool {
    exists|i: int| 0 <= i < plan.len() && in_range(#[trigger] plan[i], k)
}

/// The plan partitions [0, total): every range stays inside the resource,
/// every byte of the resource is covered, and no two ranges overlap.
pub open spec fn plan_partitions(plan: Seq<ByteRange>, total: int) -> bool {
    &&& forall|i: int, k: int|
        0 <= i < plan.len() && #[trigger] in_range(plan[i], k) ==> 0 <= k < total
    &&& forall|k: int| 0 <= k < total ==> #[trigger] covered(plan, k)
    &&& forall|i: int, j: int, k: int|
        0 <= i < plan.len() && 0 <= j < plan.len() && i != j && #[trigger] in_range(plan[i], k)
            ==> !#[trigger] in_range(plan[j], k)
}

/// The ceiling-divided chunk size is at least one byte and the `workers`
/// chunks together reach the end of the resource without running more than
/// `workers - 1` bytes past it.
proof fn lemma_chunk_size_bounds(total: int, workers: int)
    requires
        total >= 1,
        workers >= 1,
    ensures
        chunk_size_of(total, workers) >= 1,
        workers * chunk_size_of(total, workers) >= total,
        workers * chunk_size_of(total, workers) <= total + workers - 1,
{
    let s = total + workers - 1;
    let cs = s / workers;
    lemma_fundamental_div_mod(s, workers);
    lemma_mod_division_less_than_divisor(s, workers);
    lemma_div_pos_is_pos(s, workers);
    assert(workers * cs == s - s % workers);
    if cs < 1 {
        assert(cs == 0);
        assert(workers * 0 == 0) by (nonlinear_arith);
        assert(s - s % workers == 0);
        assert(s % workers < workers);
        assert(s < workers);
        assert(false);
    }
}

/// A plan whose ranges follow the planner's start/end formulas partitions
/// [0, total).
proof fn lemma_formulas_partition(plan: Seq<ByteRange>, total: int, workers: int)
    requires
        total >= 1,
        workers >= 1,
        plan.len() == workers,
        forall|i: int| 0 <= i < workers ==> (#[trigger] plan[i]).start == planned_start(
            total,
            workers,
            i,
        ) && plan[i].end == planned_end(total, workers, i),
    ensures
        plan_partitions(plan, total),
{
    let cs = chunk_size_of(total, workers);
    lemma_chunk_size_bounds(total, workers);
    // Every covered offset lies inside the resource.
    assert forall|i: int, k: int|
        0 <= i < plan.len() && #[trigger] in_range(plan[i], k) implies 0 <= k < total by {
        assert(k >= plan[i].start >= 0) by {
            assert(i * cs >= 0) by (nonlinear_arith)
                requires i >= 0 && cs >= 1;
        }
        assert(k <= plan[i].end <= total - 1);
    }
    // Every offset of the resource is covered: worker k / cs takes it.
    assert forall|k: int| 0 <= k < total implies #[trigger] covered(plan, k) by {
        let i = k / cs;
        lemma_fundamental_div_mod(k, cs);
        lemma_mod_division_less_than_divisor(k, cs);
        lemma_div_pos_is_pos(k, cs);
        assert(cs * i <= k < cs * i + cs);
        assert(i * cs == cs * i) by { lemma_mul_is_commutative(i, cs) };
        assert((i + 1) * cs == i * cs + cs) by (nonlinear_arith);
        if i >= workers {
            lemma_mul_inequality(workers, i, cs);
            assert(workers * cs <= i * cs);
            assert(k >= total);
            assert(false);
        }
        assert(plan[i].start == i * cs);
        assert(plan[i].end == planned_end(total, workers, i));
        assert(k <= plan[i].end);
        assert(in_range(plan[i], k));
    }
    // Ranges are pairwise disjoint: an earlier range ends before a later one
    // starts.
    assert forall|i: int, j: int, k: int|
        0 <= i < plan.len() && 0 <= j < plan.len() && i != j && #[trigger] in_range(plan[i], k)
            implies !#[trigger] in_range(plan[j], k) by {
        if i < j {
            lemma_mul_inequality(i + 1, j, cs);
            assert((i + 1) * cs <= j * cs);
            assert(plan[i].end < (i + 1) * cs);
            assert(plan[j].start == j * cs);
        } else {
            lemma_mul_inequality(j + 1, i, cs);
            assert((j + 1) * cs <= i * cs);
            assert(plan[j].end < (j + 1) * cs);
            assert(plan[i].start == i * cs);
        }
    }
}

/// Split a resource of `total_size` bytes into `worker_count` contiguous,
/// ascending byte ranges by ceiling division. The ranges partition
/// [0, total_size): no byte is missed, none is assigned twice. Workers whose
/// computed start lies at or past the end of the resource receive an empty
/// range and must perform no network or file activity.
pub fn plan_chunks(total_size: u64, worker_count: u8) -> (plan: Vec<ByteRange>)
    requires
        total_size >= 1,
        worker_count >= 1,
        total_size + worker_count - 1 <= u64::MAX,
    ensures
        plan@.len() == worker_count as int,
        forall|i: int| 0 <= i < plan@.len() ==> (#[trigger] plan@[i]).start == planned_start(
            total_size as int,
            worker_count as int,
            i,
        ) && plan@[i].end == planned_end(total_size as int, worker_count as int, i),
        plan_partitions(plan@, total_size as int),
        forall|i: int| 0 <= i < plan@.len() ==> (range_len(#[trigger] plan@[i]) == 0 <==> plan@[i].start
            >= total_size),
        forall|i: int| 0 <= i < plan@.len() - 1 && range_len(#[trigger] plan@[i + 1]) > 0
            ==> plan@[i + 1].start == plan@[i].end + 1,
{
    let n: u64 = worker_count as u64;
    let chunk_size: u64 = (total_size - 1) / n + 1;
    proof {
        lemma_chunk_size_bounds(total_size as int, n as int);
        lemma_div_plus_one(total_size as int - 1, n as int);
        assert(chunk_size == chunk_size_of(total_size as int, n as int));
    }
    let mut plan: Vec<ByteRange> = Vec::new();
    let mut i: u64 = 0;
    while i < n
        invariant
            0 <= i <= n,
            n == worker_count as u64,
            n >= 1,
            total_size >= 1,
            total_size + n - 1 <= u64::MAX,
            chunk_size == chunk_size_of(total_size as int, n as int),
            n * chunk_size >= total_size,
            n * chunk_size <= total_size + n - 1,
            chunk_size >= 1,
            plan@.len() == i as int,
            forall|j: int| 0 <= j < plan@.len() ==> (#[trigger] plan@[j]).start == planned_start(
                total_size as int,
                n as int,
                j,
            ) && plan@[j].end == planned_end(total_size as int, n as int, j),
        decreases n - i,
    {
        proof {
            lemma_mul_inequality(i as int + 1, n as int, chunk_size as int);
            assert((i as int + 1) * chunk_size <= n * chunk_size);
            assert(i as int * chunk_size >= 0) by (nonlinear_arith)
                requires i as int >= 0 && chunk_size as int >= 1;
            assert((i as int + 1) * chunk_size == i as int * chunk_size + chunk_size)
                by (nonlinear_arith);
        }
        let start: u64 = i * chunk_size;
        let next: u64 = (i + 1) * chunk_size;
        let end_bound: u64 = if next < total_size {
            next
        } else {
            total_size
        };
        let end: u64 = end_bound - 1;
        proof {
            assert(end == planned_end(total_size as int, n as int, i as int));
        }
        plan.push(ByteRange { start, end });
        i = i + 1;
    }
    proof {
        lemma_formulas_partition(plan@, total_size as int, worker_count as int);
        let total = total_size as int;
        let w = worker_count as int;
        let cs = chunk_size_of(total, w);
        assert forall|j: int| 0 <= j < plan@.len() implies (range_len(#[trigger] plan@[j]) == 0
            <==> plan@[j].start >= total) by {
            if plan@[j].start < total {
                assert(plan@[j].end == planned_end(total, w, j));
                assert((j + 1) * cs == j * cs + cs) by (nonlinear_arith);
                assert(plan@[j].end >= plan@[j].start);
            } else {
                assert(plan@[j].end <= total - 1);
            }
        }
    }
    plan
}

} // verus!
