use vstd::prelude::*;
use crate::sink::{concat_prefix, concat_segments, segments_view, total_bytes,
    lemma_concat_len_is_total};

verus! {

/// The single-stream fallback's write loop: each received segment is
/// appended to a fresh output in the order it arrived. The result is exactly
/// the concatenation of the segments, and its size equals the number of
/// bytes streamed — an unknown total size cannot corrupt the output.
#[verifier::loop_isolation(false)]
pub fn assemble_stream(segments: &Vec<Vec<u8>>) -> (out: Vec<u8>)
    ensures
        out@ == concat_segments(segments_view(segments@)),
        out@.len() == total_bytes(segments_view(segments@)),
{
    let ghost sv = segments_view(segments@);
    let mut out: Vec<u8> = Vec::new();
    let mut k: usize = 0;
    while k < segments.len()
        invariant
            k <= segments@.len(),
            out@ == concat_prefix(sv, k as int),
        decreases segments@.len() - k,
    {
        proof {
            assert(sv[k as int] == segments@[k as int]@);
        }
        let mut j: usize = 0;
        while j < segments[k].len()
            invariant
                k < segments@.len(),
                j <= segments@[k as int]@.len(),
                out@ == concat_prefix(sv, k as int) + segments@[k as int]@.subrange(0, j as int),
            decreases segments@[k as int]@.len() - j,
        {
            out.push(segments[k][j]);
            proof {
                assert(segments@[k as int]@.subrange(0, j as int + 1) =~= segments@[k as int]@
                    .subrange(0, j as int).push(segments@[k as int]@[j as int]));
            }
            j = j + 1;
        }
        proof {
            assert(segments@[k as int]@.subrange(0, segments@[k as int]@.len() as int)
                =~= segments@[k as int]@);
            assert(concat_prefix(sv, k as int + 1) == concat_prefix(sv, k as int) + sv[k as int]);
        }
        k = k + 1;
    }
    proof {
        lemma_concat_len_is_total(sv);
    }
    out
}

/// Monotonically increasing bytes-transferred counter, shared with the
/// progress renderer. Purely observational: no correctness of the transfer
/// depends on it.
pub struct ProgressCounter {
    pub transferred: u64,
}

impl ProgressCounter {
    pub fn new() -> (c: ProgressCounter)
        ensures
            c.transferred == 0,
    {
        ProgressCounter { transferred: 0 }
    }

    /// Record `bytes` more transferred bytes. The counter never decreases.
    pub fn advance(&mut self, bytes: u64)
        requires
            old(self).transferred + bytes <= u64::MAX,
        ensures
            final(self).transferred == old(self).transferred + bytes,
            final(self).transferred >= old(self).transferred,
    {
        self.transferred = self.transferred + bytes;
    }
}

} // verus!
