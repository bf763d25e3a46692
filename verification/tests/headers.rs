use rget::header::{chunk_request, range_header_value, u64_to_decimal};
use rget::plan::ByteRange;
use rget::stream::ProgressCounter;

#[test]
fn decimal_printing_is_exact() {
    assert_eq!(u64_to_decimal(0), b"0".to_vec());
    assert_eq!(u64_to_decimal(7), b"7".to_vec());
    assert_eq!(u64_to_decimal(10), b"10".to_vec());
    assert_eq!(u64_to_decimal(1023), b"1023".to_vec());
    assert_eq!(u64_to_decimal(u64::MAX), b"18446744073709551615".to_vec());
}

#[test]
fn range_header_names_the_inclusive_span() {
    assert_eq!(range_header_value(0, 1023), b"bytes=0-1023".to_vec());
    assert_eq!(range_header_value(1_250_000, 2_499_999), b"bytes=1250000-2499999".to_vec());
}

#[test]
fn request_for_a_nonempty_range() {
    let req = chunk_request(&ByteRange { start: 4, end: 7 });
    assert_eq!(req, Some(b"bytes=4-7".to_vec()));
}

#[test]
fn no_request_for_an_empty_range() {
    assert_eq!(chunk_request(&ByteRange { start: 5, end: 4 }), None);
    assert_eq!(chunk_request(&ByteRange { start: 10, end: 4 }), None);
}

#[test]
fn progress_only_grows() {
    let mut p = ProgressCounter::new();
    assert_eq!(p.transferred, 0);
    p.advance(10);
    p.advance(0);
    p.advance(5);
    assert_eq!(p.transferred, 15);
}
