use vstd::prelude::*;
use vstd::pervasive::VecAdditionalExecFns;
use crate::plan::{ByteRange, in_range, range_len, plan_partitions};

verus! {

/// In-memory model of the shared output file: the bytes written so far.
/// Workers write disjoint spans of it; the mutual-exclusion discipline of
/// the real file handle corresponds to each write method here running to
/// completion before another starts.
pub struct Sink {
    data: Vec<u8>,
}

impl View for Sink {
    type V = Seq<u8>;

    closed spec fn view(&self) -> Seq<u8> {
        self.data@
    }
}

impl Sink {
    /// A sink for a resource of `total_size` bytes, zero-filled like a
    /// freshly created file.
    pub fn new(total_size: usize) -> (s: Sink)
        ensures
            s@.len() == total_size,
            forall|j: int| 0 <= j < total_size ==> s@[j] == 0u8,
    {
        let mut data: Vec<u8> = Vec::new();
        let mut i: usize = 0;
        while i < total_size
            invariant
                i <= total_size,
                data@.len() == i,
                forall|j: int| 0 <= j < i ==> data@[j] == 0u8,
            decreases total_size - i,
        {
            data.push(0u8);
            i = i + 1;
        }
        Sink { data }
    }

    pub fn len(&self) -> (n: usize)
        ensures
            n == self@.len(),
    {
        self.data.len()
    }

    /// Hand the assembled bytes back.
    pub fn into_contents(self) -> (v: Vec<u8>)
        ensures
            v@ == self@,
    {
        self.data
    }

    /// One seek-and-write critical section: place `data` at offset `start`,
    /// leaving every byte outside the written span unchanged.
    pub fn write_at(&mut self, start: usize, data: &Vec<u8>)
        requires
            start + data@.len() <= old(self)@.len(),
        ensures
            final(self)@.len() == old(self)@.len(),
            forall|j: int| 0 <= j < final(self)@.len() ==> final(self)@[j] == (if start <= j
                < start + data@.len() {
                data@[j - start]
            } else {
                old(self)@[j]
            }),
    {
        let total: usize = self.data.len();
        let mut i: usize = 0;
        while i < data.len()
            invariant
                i <= data@.len(),
                start + data@.len() <= old(self)@.len(),
                old(self)@.len() == total,
                self@.len() == old(self)@.len(),
                forall|j: int| 0 <= j < self@.len() ==> self@[j] == (if start <= j < start + i {
                    data@[j - start]
                } else {
                    old(self)@[j]
                }),
            decreases data@.len() - i,
        {
            self.data.set(start + i, data[i]);
            i = i + 1;
        }
    }
}

/// Concatenation of the first `k` segments.
pub open spec fn concat_prefix(segs: Seq<Seq<u8>>, k: int) -> Seq<u8>
    decreases k,
{
    if k <= 0 || k > segs.len() {
        Seq::empty()
    } else {
        concat_prefix(segs, k - 1) + segs[k - 1]
    }
}

/// All segments concatenated: the body bytes a response delivered, in the
/// order they arrived.
pub open spec fn concat_segments(segs: Seq<Seq<u8>>) -> Seq<u8> {
    concat_prefix(segs, segs.len() as int)
}

/// Total number of bytes across the segments.
pub open spec fn total_bytes(segs: Seq<Seq<u8>>) -> int
    decreases segs.len(),
{
    if segs.len() == 0 {
        0
    } else {
        total_bytes(segs.drop_last()) + segs.last().len()
    }
}

/// The byte sequences of a vector of segments.
pub open spec fn segments_view(segs: Seq<Vec<u8>>) -> Seq<Seq<u8>> {
    segs.map_values(|v: Vec<u8>| v@)
}

proof fn lemma_concat_prefix_len_grows(segs: Seq<Seq<u8>>, k: int, m: int)
    requires
        0 <= k <= m <= segs.len(),
    ensures
        concat_prefix(segs, k).len() <= concat_prefix(segs, m).len(),
    decreases m - k,
{
    if k < m {
        lemma_concat_prefix_len_grows(segs, k, m - 1);
    }
}

/// The concatenation of all segments holds exactly their bytes.
pub proof fn lemma_concat_len_is_total(segs: Seq<Seq<u8>>)
    ensures
        concat_segments(segs).len() == total_bytes(segs),
    decreases segs.len(),
{
    if segs.len() > 0 {
        lemma_concat_len_is_total(segs.drop_last());
        assert(concat_prefix(segs, segs.len() - 1) == concat_segments(segs.drop_last())) by {
            lemma_concat_prefix_ignores_tail(segs.drop_last(), segs, segs.len() - 1);
        }
    }
}

proof fn lemma_concat_prefix_ignores_tail(a: Seq<Seq<u8>>, b: Seq<Seq<u8>>, k: int)
    requires
        0 <= k <= a.len(),
        k <= b.len(),
        forall|i: int| 0 <= i < k ==> a[i] == b[i],
    ensures
        concat_prefix(a, k) == concat_prefix(b, k),
    decreases k,
{
    if k > 0 {
        lemma_concat_prefix_ignores_tail(a, b, k - 1);
    }
}

impl Sink {
    /// A worker's body-draining loop for one attempt: each received segment
    /// is written immediately after the previous one, starting at `start`,
    /// and the write position only advances — the segments land in the file
    /// exactly in the order received, and no byte outside the drained span
    /// is touched.
    #[verifier::loop_isolation(false)]
    pub fn write_segments_at(&mut self, start: usize, segments: &Vec<Vec<u8>>)
        requires
            start + concat_segments(segments_view(segments@)).len() <= old(self)@.len(),
        ensures
            final(self)@.len() == old(self)@.len(),
            forall|j: int| 0 <= j < final(self)@.len() ==> final(self)@[j] == (if start <= j
                < start + concat_segments(segments_view(segments@)).len() {
                concat_segments(segments_view(segments@))[j - start]
            } else {
                old(self)@[j]
            }),
    {
        let total: usize = self.len();
        let ghost sv = segments_view(segments@);
        let ghost flat = concat_segments(sv);
        let mut k: usize = 0;
        let mut pos: usize = start;
        while k < segments.len()
            invariant
                k <= segments@.len(),
                pos == start + concat_prefix(sv, k as int).len(),
                self@.len() == old(self)@.len(),
                forall|j: int| 0 <= j < self@.len() ==> self@[j] == (if start <= j < pos {
                    concat_prefix(sv, k as int)[j - start]
                } else {
                    old(self)@[j]
                }),
            decreases segments@.len() - k,
        {
            proof {
                lemma_concat_prefix_len_grows(sv, k as int + 1, sv.len() as int);
                assert(sv[k as int] == segments@[k as int]@);
            }
            self.write_at(pos, &segments[k]);
            proof {
                let prev = concat_prefix(sv, k as int);
                let now = concat_prefix(sv, k as int + 1);
                assert(now == prev + sv[k as int]);
                assert forall|j: int| 0 <= j < self@.len() implies self@[j] == (if start <= j < pos
                    + segments@[k as int]@.len() {
                    now[j - start]
                } else {
                    old(self)@[j]
                }) by {
                    if start <= j < pos {
                        assert(now[j - start] == prev[j - start]);
                    }
                }
            }
            pos = pos + segments[k].len();
            k = k + 1;
        }
        proof {
            assert(concat_prefix(sv, segments@.len() as int) == flat);
        }
    }
}

/// Some position in `order[0..upto]` names chunk `i`.
pub open spec fn applied(order: Seq<usize>, upto: int, i: int) -> bool {
    exists|p: int| 0 <= p < upto && #[trigger] order[p] == i
}

/// The bytes of range `r` in `s` are exactly `data`.
pub open spec fn chunk_written(s: Seq<u8>, r: ByteRange, data: Seq<u8>) -> bool {
    forall|k: int| #[trigger] in_range(r, k) ==> s[k] == data[k - r.start]
}

/// Chunks may finish in any completion order: as long as the plan partitions
/// the file, each chunk's bytes fill its own range, and every chunk is
/// eventually written, the assembled bytes are the same — the concurrent
/// path cannot corrupt the file, however its workers interleave. Empty
/// ranges are skipped without touching the sink.
#[verifier::loop_isolation(false)]
pub fn apply_chunks(
    sink: &mut Sink,
    plan: &Vec<ByteRange>,
    chunks: &Vec<Vec<u8>>,
    order: &Vec<usize>,
)
    requires
        plan_partitions(plan@, old(sink)@.len() as int),
        chunks@.len() == plan@.len(),
        forall|i: int| 0 <= i < plan@.len() ==> (#[trigger] chunks@[i])@.len() == range_len(
            plan@[i],
        ),
        forall|p: int| 0 <= p < order@.len() ==> (#[trigger] order@[p]) < plan@.len(),
        forall|i: int| 0 <= i < plan@.len() ==> applied(order@, order@.len() as int, i),
    ensures
        final(sink)@.len() == old(sink)@.len(),
        forall|i: int| 0 <= i < plan@.len() ==> #[trigger] chunk_written(
            final(sink)@,
            plan@[i],
            chunks@[i]@,
        ),
{
    let total: usize = sink.len();
    let mut p: usize = 0;
    while p < order.len()
        invariant
            p <= order@.len(),
            sink@.len() == old(sink)@.len(),
            forall|i: int| 0 <= i < plan@.len() && applied(order@, p as int, i)
                ==> #[trigger] chunk_written(sink@, plan@[i], chunks@[i]@),
        decreases order@.len() - p,
    {
        let c: usize = order[p];
        let r: ByteRange = plan[c];
        if r.start <= r.end {
            proof {
                assert(in_range(plan@[c as int], r.end as int));
                assert(in_range(plan@[c as int], r.start as int));
            }
            let start_usize: usize = r.start as usize;
            let ghost before = sink@;
            sink.write_at(start_usize, &chunks[c]);
            proof {
                assert forall|i: int|
                    0 <= i < plan@.len() && applied(order@, p as int + 1, i)
                        implies #[trigger] chunk_written(sink@, plan@[i], chunks@[i]@) by {
                    assert forall|k: int| #[trigger] in_range(plan@[i], k) implies sink@[k]
                        == chunks@[i]@[k - plan@[i].start] by {
                        assert(0 <= k < sink@.len());
                        if i == c {
                        } else {
                            assert(!in_range(plan@[c as int], k));
                            assert(applied(order@, p as int, i));
                            assert(chunk_written(before, plan@[i], chunks@[i]@));
                        }
                    }
                }
            }
        } else {
            proof {
                assert forall|i: int|
                    0 <= i < plan@.len() && applied(order@, p as int + 1, i)
                        implies #[trigger] chunk_written(sink@, plan@[i], chunks@[i]@) by {
                    if i != c {
                        assert(applied(order@, p as int, i));
                    } else {
                        // An empty range covers no offset, so there is
                        // nothing to check for the chunk just "written".
                        assert forall|k: int| #[trigger] in_range(plan@[i], k) implies sink@[k]
                            == chunks@[i]@[k - plan@[i].start] by {
                            assert(plan@[i].start > plan@[i].end);
                            assert(false);
                        }
                    }
                }
            }
        }
        p = p + 1;
    }
}

} // verus!
