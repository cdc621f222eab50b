use bytes::BytesMut;
use smt_core::codec_engine::fix_codec::{append_tag_decimal, frame_message, CodecError};
use smt_core::codec_engine::framing::{
    find_begin_mark_from, find_trailer_mark_from, locate_frame, verify_checksum,
};
use smt_core::codec_engine::wire::{
    append_tag_char, append_tag_u32, append_tag_u64, append_tag_value, find_byte_from,
    format_u64, parse_u32_from_bytes, parse_u64_from_bytes, u64_to_string,
};
use smt_core::codec_engine::wire_lemmas::is_field_safe;
use smt_core::decimal::Decimal;

#[test]
fn numbers_are_written_without_leading_zeros() {
    assert_eq!(format_u64(0), b"0");
    assert_eq!(format_u64(7), b"7");
    assert_eq!(format_u64(10), b"10");
    assert_eq!(format_u64(4096), b"4096");
    assert_eq!(format_u64(1678886000000), b"1678886000000");
    assert_eq!(format_u64(u64::MAX), b"18446744073709551615");
    assert_eq!(u64_to_string(1678886400123), "1678886400123");
    assert_eq!(u64_to_string(0), "0");
}

#[test]
fn numbers_are_read_digit_by_digit() {
    assert_eq!(parse_u32_from_bytes(b"0"), Ok(0));
    assert_eq!(parse_u32_from_bytes(b""), Ok(0));
    assert_eq!(parse_u32_from_bytes(b"0042"), Ok(42));
    assert_eq!(parse_u32_from_bytes(b"4294967295"), Ok(u32::MAX));
    assert_eq!(parse_u64_from_bytes(b"18446744073709551615"), Ok(u64::MAX));
    assert_eq!(parse_u64_from_bytes(b"000000000000000000000000000001"), Ok(1));
    for bad in [&b"+1"[..], b" 1", b"1 ", b"1.0", b"0x10", b"1e3", b"/", b":"] {
        assert_eq!(
            parse_u32_from_bytes(bad),
            Err(CodecError::InvalidValue {
                tag: 0,
                value: String::from_utf8_lossy(bad).into_owned()
            })
        );
    }
    assert!(parse_u32_from_bytes(b"4294967296").is_err());
    assert!(parse_u64_from_bytes(b"18446744073709551616").is_err());
    assert!(parse_u64_from_bytes(b"99999999999999999999999").is_err());
}

#[test]
fn a_number_that_is_written_is_read_back() {
    for n in [0u64, 1, 9, 10, 99, 100, 12345, u32::MAX as u64, u64::MAX] {
        assert_eq!(parse_u64_from_bytes(&format_u64(n)), Ok(n));
    }
}

#[test]
fn fields_are_appended_as_tag_equals_value_soh() {
    let mut buf = BytesMut::from(&b"x"[..]);
    append_tag_value(&mut buf, 49, b"SENDER");
    append_tag_u32(&mut buf, 34, 0);
    append_tag_u32(&mut buf, 9, u32::MAX);
    append_tag_u64(&mut buf, 52, 1678886000000);
    append_tag_char(&mut buf, 54, b'1');
    append_tag_value(&mut buf, 0, b"");
    append_tag_decimal(&mut buf, 44, &Decimal::new(-10567, 4));
    assert_eq!(
        buf.as_ref(),
        &b"x49=SENDER\x0134=0\x019=4294967295\x0152=1678886000000\x0154=1\x010=\x0144=-1.0567\x01"[..]
    );
}

#[test]
fn a_body_is_framed_with_its_length_and_checksum() {
    let framed = frame_message(b"58=hi\x01", "0", "A", "B", 3, 4).unwrap();
    assert_eq!(
        framed.as_ref(),
        &b"8=FIX.4.2\x019=31\x0135=0\x0149=A\x0156=B\x0134=3\x0152=4\x0158=hi\x0110=212\x01"[..]
    );
    let sum: u32 = framed[..framed.len() - 7].iter().map(|b| *b as u32).sum();
    assert_eq!(sum % 256, 212);
    assert_eq!(verify_checksum(framed.as_ref()), Ok(()));
    assert_eq!(
        verify_checksum(b"10=000"),
        Err(CodecError::InvalidFormat("Message too short".to_string()))
    );
    assert_eq!(verify_checksum(b"10=000\x01"), Ok(()));
    assert_eq!(
        verify_checksum(b"\x0110=000\x01"),
        Err(CodecError::ChecksumMismatch { expected: 0, actual: 1 })
    );

    let empty = frame_message(b"", "0", "", "", 0, 0).unwrap();
    assert_eq!(
        empty.as_ref(),
        &b"8=FIX.4.2\x019=23\x0135=0\x0149=\x0156=\x0134=0\x0152=0\x0110=207\x01"[..]
    );
}

#[test]
fn checksums_are_three_digits_with_leading_zeros() {
    for (seq, expected) in
        [(139u32, &b"10=001\x01"[..]), (129, b"10=000\x01"), (119, b"10=255\x01")]
    {
        let framed = frame_message(b"", "0", "A", "B", seq, 49).unwrap();
        let n = framed.len();
        assert_eq!(&framed[n - 7..], expected);
    }
    let framed = frame_message(b"", "0", "A", "S", 104, 49).unwrap();
    let n = framed.len();
    assert_eq!(&framed[n - 7..], b"10=010\x01");
}

#[test]
fn bytes_and_marks_are_found_where_they_stand_first() {
    assert_eq!(find_byte_from(b"a=b=c", b'=', 0), 1);
    assert_eq!(find_byte_from(b"a=b=c", b'=', 2), 3);
    assert_eq!(find_byte_from(b"a=b=c", b'=', 4), 5);
    assert_eq!(find_byte_from(b"", b'=', 0), 0);
    assert_eq!(find_begin_mark_from(b"88=8=", 0), 1);
    assert_eq!(find_begin_mark_from(b"88=8=", 2), 3);
    assert_eq!(find_begin_mark_from(b"8", 0), 1);
    assert_eq!(find_begin_mark_from(b"=8", 0), 2);
    assert_eq!(find_trailer_mark_from(b"110=10=", 0), 1);
    assert_eq!(find_trailer_mark_from(b"110=10=", 2), 4);
    assert_eq!(find_trailer_mark_from(b"10", 0), 2);
    assert_eq!(find_trailer_mark_from(b"1=0=10 =", 0), 8);
}

#[test]
fn a_frame_runs_from_the_begin_mark_to_the_soh_of_the_trailer() {
    assert_eq!(locate_frame(b""), None);
    assert_eq!(locate_frame(b"8=FIX.4.2\x01"), None);
    assert_eq!(locate_frame(b"xx8=A\x0110=123\x01yy"), Some((2, 13)));
    assert_eq!(locate_frame(b"8=A\x0110=123\x01"), Some((0, 11)));
    assert_eq!(locate_frame(b"8=A\x0110=123"), None);
    assert_eq!(locate_frame(b"8=A\x0110=123X"), None);
    assert_eq!(locate_frame(b"8=A\x0110=123X10=456\x01"), None);
    assert_eq!(locate_frame(b"10=123\x018=A\x0110=456\x01"), Some((7, 18)));
}

#[test]
fn values_with_soh_or_a_trailer_mark_are_not_safe() {
    assert!(is_field_safe(b""));
    assert!(is_field_safe(b"CLIENT1"));
    assert!(is_field_safe(b"a=b"));
    assert!(is_field_safe(b"10 =1 0=01="));
    assert!(!is_field_safe(b"a\x01b"));
    assert!(!is_field_safe(b"\x01"));
    assert!(!is_field_safe(b"x10=y"));
    assert!(!is_field_safe(b"10="));
}
