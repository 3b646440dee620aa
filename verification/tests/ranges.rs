use s3kit::decimal::parse_u64;
use s3kit::decimal::u64_to_dec;
use s3kit::range::build_range_header;
use s3kit::range::parse_range_options;
use s3kit::range::read_chunk_len;
use s3kit::range::resolve_range;
use s3kit::range::s3_range_param;

#[test]
fn resolve_closed_range() {
    let r = resolve_range(Some("0-99".to_string()), None, None).unwrap();
    assert_eq!(r, (Some(0), Some(100)));
    let r = resolve_range(Some("bytes=10-19".to_string()), None, None).unwrap();
    assert_eq!(r, (Some(10), Some(10)));
}

#[test]
fn resolve_open_range() {
    let r = resolve_range(Some("100-".to_string()), None, None).unwrap();
    assert_eq!(r, (Some(100), None));
}

#[test]
fn resolve_rejects_reversed_range() {
    let e = resolve_range(Some("50-10".to_string()), None, None).unwrap_err();
    assert_eq!(e, "Range end must be >= start");
}

#[test]
fn resolve_rejects_conflicting_options() {
    let e = resolve_range(Some("0-99".to_string()), Some(1), None).unwrap_err();
    assert_eq!(e, "Cannot specify both --range and --offset/--size");
    let e = resolve_range(Some("0-99".to_string()), None, Some(4)).unwrap_err();
    assert_eq!(e, "Cannot specify both --range and --offset/--size");
}

#[test]
fn resolve_rejects_malformed_ranges() {
    let e = resolve_range(Some("abc".to_string()), None, None).unwrap_err();
    assert_eq!(e, "Invalid range 'abc', expected 'start-end'");
    let e = resolve_range(Some("1-2-3".to_string()), None, None).unwrap_err();
    assert_eq!(e, "Invalid range '1-2-3', expected 'start-end'");
    let e = resolve_range(Some("x-9".to_string()), None, None).unwrap_err();
    assert_eq!(e, "Invalid range start 'x'");
    let e = resolve_range(Some("1-y".to_string()), None, None).unwrap_err();
    assert_eq!(e, "Invalid range end 'y'");
}

#[test]
fn resolve_passes_offset_and_size_through() {
    assert_eq!(resolve_range(None, Some(3), Some(5)).unwrap(), (Some(3), Some(5)));
    assert_eq!(resolve_range(None, None, Some(5)).unwrap(), (None, Some(5)));
    assert_eq!(resolve_range(None, None, None).unwrap(), (None, None));
}

#[test]
fn parse_range_options_messages_and_size_rule() {
    let r = parse_range_options(Some("0-99".to_string()), None, None).unwrap();
    assert_eq!(r, (Some(0), Some(100)));
    let e = parse_range_options(Some("0-99".to_string()), Some(1), None).unwrap_err();
    assert_eq!(e, "Cannot specify both --range and --offset/--size options");
    let e = parse_range_options(Some("zz".to_string()), None, None).unwrap_err();
    assert_eq!(
        e,
        "Invalid range format: 'zz'. Expected format: 'start-end' or 'start-'"
    );
    let e = parse_range_options(Some("a-1".to_string()), None, None).unwrap_err();
    assert_eq!(e, "Invalid start position in range: 'a'");
    let e = parse_range_options(Some("1-b".to_string()), None, None).unwrap_err();
    assert_eq!(e, "Invalid end position in range: 'b'");
    let e = parse_range_options(Some("9-2".to_string()), None, None).unwrap_err();
    assert_eq!(
        e,
        "End position must be greater than or equal to start position"
    );
    // a size without an offset bounds a read that starts at the beginning
    assert_eq!(parse_range_options(None, None, Some(7)).unwrap(), (None, Some(7)));
    assert_eq!(parse_range_options(None, Some(2), Some(7)).unwrap(), (Some(2), Some(7)));
}

#[test]
fn range_headers_are_formatted() {
    assert_eq!(build_range_header(Some(0), Some(100)).unwrap(), "bytes=0-99");
    assert_eq!(build_range_header(Some(5), None).unwrap(), "bytes=5-");
    assert!(build_range_header(None, None).is_none());
}

#[test]
fn s3_range_param_normalizes() {
    assert_eq!(
        s3_range_param(Some("0-99".to_string()), None, None).unwrap(),
        "bytes=0-99"
    );
    assert_eq!(
        s3_range_param(Some("bytes=1-2".to_string()), None, None).unwrap(),
        "bytes=1-2"
    );
    assert_eq!(s3_range_param(None, Some(5), Some(10)).unwrap(), "bytes=5-14");
    assert_eq!(s3_range_param(None, Some(5), None).unwrap(), "bytes=5-");
    assert_eq!(s3_range_param(None, None, Some(10)).unwrap(), "bytes=0-9");
    assert!(s3_range_param(None, None, None).is_none());
}

#[test]
fn chunk_len_is_bounded() {
    assert_eq!(read_chunk_len(None, 8192), 8192);
    assert_eq!(read_chunk_len(Some(10), 8192), 10);
    assert_eq!(read_chunk_len(Some(100000), 8192), 8192);
    assert_eq!(read_chunk_len(Some(0), 8192), 0);
}

#[test]
fn decimal_round_trip() {
    assert_eq!(u64_to_dec(0), "0");
    assert_eq!(u64_to_dec(12345), "12345");
    assert_eq!(u64_to_dec(u64::MAX), "18446744073709551615");
    assert_eq!(parse_u64("0"), Some(0));
    assert_eq!(parse_u64("12345"), Some(12345));
    assert_eq!(parse_u64("18446744073709551615"), Some(u64::MAX));
    assert_eq!(parse_u64("18446744073709551616"), None);
    assert_eq!(parse_u64(""), None);
    assert_eq!(parse_u64("12a"), None);
    assert_eq!(parse_u64("-3"), None);
    assert_eq!(parse_u64("+3"), None);
}
