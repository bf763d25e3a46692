use vstd::prelude::*;
use crate::plan::{ByteRange, range_len};

verus! {

/// ASCII byte of the decimal digit `d`.
pub open spec fn digit_byte(d: int) -> u8
    recommends
        0 <= d <= 9,
{
    (d + 48) as u8
}

/// The shortest decimal representation of `n`, as ASCII bytes.
pub open spec fn decimal_rep(n: int) -> Seq<u8>
    recommends
        n >= 0,
    decreases n,
{
    if n < 10 {
        seq![digit_byte(n)]
    } else {
        decimal_rep(n / 10).push(digit_byte(n % 10))
    }
}

/// Print `n` in decimal.
pub fn u64_to_decimal(n: u64) -> (s: Vec<u8>)
    ensures
        s@ == decimal_rep(n as int),
    decreases n,
{
    if n < 10 {
        let mut v: Vec<u8> = Vec::new();
        v.push((n as u8) + 48);
        proof {
            assert(v@ =~= decimal_rep(n as int));
        }
        v
    } else {
        let mut v = u64_to_decimal(n / 10);
        v.push(((n % 10) as u8) + 48);
        proof {
            assert(v@ =~= decimal_rep(n as int));
        }
        v
    }
}

/// The header value a worker sends to request the inclusive span
/// [start, end]: the ASCII bytes of "bytes=<start>-<end>".
pub open spec fn range_header_rep(start: int, end: int) -> Seq<u8> {
    seq![98u8, 121u8, 116u8, 101u8, 115u8, 61u8] + decimal_rep(start) + seq![45u8] + decimal_rep(
        end,
    )
}

/// Format the range header value for the inclusive span [start, end].
pub fn range_header_value(start: u64, end: u64) -> (v: Vec<u8>)
    ensures
        v@ == range_header_rep(start as int, end as int),
{
    let mut v: Vec<u8> = Vec::new();
    v.push(98);
    v.push(121);
    v.push(116);
    v.push(101);
    v.push(115);
    v.push(61);
    let mut a = u64_to_decimal(start);
    v.append(&mut a);
    v.push(45);
    let mut b = u64_to_decimal(end);
    v.append(&mut b);
    proof {
        assert(v@ =~= range_header_rep(start as int, end as int));
    }
    v
}

/// The request a worker must issue for its assignment: the range header
/// value for a non-empty span, and nothing at all for an empty one — a
/// worker with an empty span must not touch the network.
pub fn chunk_request(r: &ByteRange) -> (req: Option<Vec<u8>>)
    ensures
        req is Some <==> range_len(*r) > 0,
        (req matches Some(v) ==> v@ == range_header_rep(r.start as int, r.end as int)),
{
    if r.start <= r.end {
        Option::Some(range_header_value(r.start, r.end))
    } else {
        Option::None
    }
}

} // verus!
