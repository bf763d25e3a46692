use vstd::prelude::*;
use crate::outcome::DownloadError;

verus! {

/// `b` is an ASCII decimal digit.
pub open spec fn is_digit_byte(b: u8) -> bool {
    48 <= b <= 57
}

/// Every byte of `s` is a decimal digit.
pub open spec fn all_digits(s: Seq<u8>) -> bool {
    forall|i: int| 0 <= i < s.len() ==> is_digit_byte(#[trigger] s[i])
}

/// The value of a string of decimal digits.
pub open spec fn digits_value(s: Seq<u8>) -> int
    decreases s.len(),
{
    if s.len() == 0 {
        0
    } else {
        digits_value(s.drop_last()) * 10 + (s.last() - 48)
    }
}

/// The digit part of a size header value: everything after one optional
/// leading plus sign.
pub open spec fn size_digits(s: Seq<u8>) -> Seq<u8> {
    if s.len() > 0 && s[0] == 43 {
        s.subrange(1, s.len() as int)
    } else {
        s
    }
}

/// `s` is a well-formed size: an optional plus sign, then at least one
/// digit, with a value that fits an unsigned 64-bit count.
pub open spec fn is_size_literal(s: Seq<u8>) -> bool {
    size_digits(s).len() > 0 && all_digits(size_digits(s)) && digits_value(size_digits(s))
        <= u64::MAX
}

proof fn lemma_digits_value_nonneg(s: Seq<u8>)
    requires
        all_digits(s),
    ensures
        digits_value(s) >= 0,
    decreases s.len(),
{
    if s.len() > 0 {
        assert(all_digits(s.drop_last()));
        lemma_digits_value_nonneg(s.drop_last());
    }
}

/// Reading one more digit never shrinks the value of the prefix read so far.
proof fn lemma_digits_prefix_grows(s: Seq<u8>, k: int, m: int)
    requires
        all_digits(s),
        0 <= k <= m <= s.len(),
    ensures
        digits_value(s.subrange(0, k)) <= digits_value(s.subrange(0, m)),
    decreases m - k,
{
    if k < m {
        lemma_digits_prefix_grows(s, k, m - 1);
        let p = s.subrange(0, m);
        assert(p.drop_last() =~= s.subrange(0, m - 1));
        assert(all_digits(p.drop_last()));
        lemma_digits_value_nonneg(p.drop_last());
        assert(digits_value(p) == digits_value(p.drop_last()) * 10 + (p.last() - 48));
        assert(digits_value(p.drop_last()) * 10 >= digits_value(p.drop_last())) by (nonlinear_arith)
            requires digits_value(p.drop_last()) >= 0;
    }
}

/// Parse a size header value as an unsigned decimal count: the result is
/// the stated value exactly when the bytes are an optional plus sign
/// followed by digits whose value fits 64 bits, and nothing otherwise.
#[verifier::loop_isolation(false)]
pub fn parse_content_length(value: &Vec<u8>) -> (r: Option<u64>)
    ensures
        is_size_literal(value@) ==> r == Option::Some(digits_value(size_digits(value@)) as u64),
        !is_size_literal(value@) ==> r is None,
{
    let ghost d = size_digits(value@);
    let start: usize = if value.len() > 0 && value[0] == 43u8 {
        1
    } else {
        0
    };
    if value.len() == start {
        return Option::None;
    }
    let mut acc: u64 = 0;
    let mut i: usize = start;
    while i < value.len()
        invariant
            start <= i <= value@.len(),
            value@.subrange(start as int, i as int) =~= d.subrange(0, i - start),
            all_digits(d.subrange(0, i - start)),
            acc as int == digits_value(d.subrange(0, i - start)),
        decreases value@.len() - i,
    {
        let b: u8 = value[i];
        proof {
            assert(d.subrange(0, i - start + 1) =~= d.subrange(0, i - start).push(b));
            assert(d.subrange(0, i - start + 1).drop_last() =~= d.subrange(0, i - start));
        }
        if b < 48 || b > 57 {
            proof {
                assert(d[i - start] == b);
                assert(!all_digits(d));
            }
            return Option::None;
        }
        let dig: u64 = (b - 48) as u64;
        if acc > (u64::MAX - dig) / 10 {
            proof {
                assert(acc * 10 + dig > u64::MAX) by {
                    assert(acc as int > (u64::MAX - dig) as int / 10);
                    assert(acc as int >= (u64::MAX - dig) as int / 10 + 1);
                    assert(((u64::MAX - dig) as int / 10 + 1) * 10 > u64::MAX - dig)
                        by (nonlinear_arith);
                    assert(acc as int * 10 >= ((u64::MAX - dig) as int / 10 + 1) * 10)
                        by (nonlinear_arith)
                        requires acc as int >= (u64::MAX - dig) as int / 10 + 1;
                }
                if is_size_literal(value@) {
                    assert(digits_value(d.subrange(0, i - start + 1)) == acc * 10 + dig);
                    lemma_digits_prefix_grows(d, i - start + 1, d.len() as int);
                    assert(d.subrange(0, d.len() as int) =~= d);
                    assert(false);
                }
            }
            return Option::None;
        }
        proof {
            assert(acc as int * 10 + dig <= u64::MAX) by {
                assert(acc as int <= (u64::MAX - dig) as int / 10);
                assert(acc as int * 10 <= ((u64::MAX - dig) as int / 10) * 10)
                    by (nonlinear_arith)
                    requires acc as int <= (u64::MAX - dig) as int / 10;
                assert(((u64::MAX - dig) as int / 10) * 10 <= u64::MAX - dig) by (nonlinear_arith);
            }
        }
        acc = acc * 10 + dig;
        i = i + 1;
    }
    proof {
        assert(d.subrange(0, i - start) =~= d);
    }
    Option::Some(acc)
}

/// The five ASCII bytes of the ranges token stand at offset `i` of `s`.
pub open spec fn ranges_token_at(s: Seq<u8>, i: int) -> bool {
    s[i] == 98 && s[i + 1] == 121 && s[i + 2] == 116 && s[i + 3] == 101 && s[i + 4] == 115
}

/// The header value advertises byte ranges: it contains "bytes" somewhere.
pub open spec fn advertises_byte_ranges(s: Seq<u8>) -> bool {
    exists|i: int| 0 <= i && i + 5 <= s.len() && #[trigger] ranges_token_at(s, i)
}

/// Whether a ranges header value explicitly advertises byte-range support,
/// by containing the token "bytes". Absent or different values count as no
/// support: the conservative reading keeps an unsupported partitioned
/// download from corrupting the file.
#[verifier::loop_isolation(false)]
pub fn accepts_byte_ranges(value: &Vec<u8>) -> (r: bool)
    ensures
        r == advertises_byte_ranges(value@),
{
    if value.len() < 5 {
        return false;
    }
    let last_start: usize = value.len() - 5;
    let mut i: usize = 0;
    while i <= last_start
        invariant
            0 <= i <= last_start + 1,
            forall|j: int| 0 <= j < i ==> !#[trigger] ranges_token_at(value@, j),
        decreases last_start + 1 - i,
    {
        if value[i] == 98u8 && value[i + 1] == 121u8 && value[i + 2] == 116u8 && value[i + 3]
            == 101u8 && value[i + 4] == 115u8 {
            proof {
                assert(ranges_token_at(value@, i as int));
            }
            return true;
        }
        i = i + 1;
    }
    false
}

/// What the capability probe learned about the resource.
#[derive(Clone, Copy, PartialEq, Eq, Debug)]
pub struct Capabilities {
    /// Total size in bytes, when the server stated one.
    pub total_size: Option<u64>,
    /// Whether the server explicitly advertises byte-range requests.
    pub accepts_ranges: bool,
}

/// The size the capability headers state, if any.
pub open spec fn stated_size(content_length: Option<Vec<u8>>) -> Option<u64> {
    match content_length {
        Option::Some(v) => if is_size_literal(v@) {
            Option::Some(digits_value(size_digits(v@)) as u64)
        } else {
            Option::None
        },
        Option::None => Option::None,
    }
}

/// Whether the capability headers advertise byte ranges.
pub open spec fn stated_ranges(accept_ranges: Option<Vec<u8>>) -> bool {
    match accept_ranges {
        Option::Some(v) => advertises_byte_ranges(v@),
        Option::None => false,
    }
}

/// Evaluate a capability probe's response: a non-success status makes the
/// source unreachable; otherwise the size is read from the length header (a
/// malformed or missing one means the size is unknown) and range support
/// from the ranges header (missing means none).
pub fn evaluate_probe(
    status: u16,
    content_length: Option<Vec<u8>>,
    accept_ranges: Option<Vec<u8>>,
) -> (r: Result<Capabilities, DownloadError>)
    ensures
        !(200 <= status < 300) ==> r == Result::<Capabilities, DownloadError>::Err(
            DownloadError::UnreachableSource(status),
        ),
        200 <= status < 300 ==> (r matches Ok(c) && c.total_size == stated_size(content_length)
            && c.accepts_ranges == stated_ranges(accept_ranges)),
{
    if !(200 <= status && status < 300) {
        return Result::Err(DownloadError::UnreachableSource(status));
    }
    let total_size: Option<u64> = match &content_length {
        Option::Some(v) => parse_content_length(v),
        Option::None => Option::None,
    };
    let accepts: bool = match &accept_ranges {
        Option::Some(v) => accepts_byte_ranges(v),
        Option::None => false,
    };
    Result::Ok(Capabilities { total_size, accepts_ranges: accepts })
}

/// A status code that counts as success for a plain fetch.
pub fn is_success_status(status: u16) -> (r: bool)
    ensures
        r == (200 <= status < 300),
{
    200 <= status && status < 300
}

/// A status code a range fetch attempt accepts: plain success or partial
/// content. Anything else is a fatal error for that attempt.
pub fn range_status_acceptable(status: u16) -> (r: bool)
    ensures
        r == (200 <= status < 300 || status == 206),
{
    (200 <= status && status < 300) || status == 206
}

} // verus!
