use bytes::BytesMut;
use smt_core::codec_engine::fix_codec::{decode_fix_message, decode_frame, CodecError};
use smt_core::protocol_defs::fix_messages::FixMessageBody;

fn field(tag: u32, value: &[u8]) -> Vec<u8> {
    let mut out = tag.to_string().into_bytes();
    out.push(b'=');
    out.extend_from_slice(value);
    out.push(1);
    out
}

fn framed(fields: &[(u32, &[u8])]) -> Vec<u8> {
    let mut out = Vec::new();
    for (tag, value) in fields {
        out.extend_from_slice(&field(*tag, value));
    }
    let sum: u32 = out.iter().map(|b| *b as u32).sum();
    let text = format!("{:03}", sum % 256);
    out.extend_from_slice(&field(10, text.as_bytes()));
    out
}

fn logon_with(changes: &[(u32, Option<&'static [u8]>)]) -> Vec<u8> {
    let base: [(u32, &[u8]); 10] = [
        (8, b"FIX.4.2"),
        (9, b"67"),
        (35, b"A"),
        (49, b"CLIENT1"),
        (56, b"SERVER1"),
        (34, b"1"),
        (52, b"1678886000000"),
        (98, b"0"),
        (108, b"30"),
        (141, b"Y"),
    ];
    let mut fields: Vec<(u32, &[u8])> = Vec::new();
    for (tag, value) in base {
        match changes.iter().find(|(t, _)| *t == tag) {
            Some((_, Some(other))) => fields.push((tag, *other)),
            Some((_, None)) => {}
            None => fields.push((tag, value)),
        }
    }
    framed(&fields)
}

fn order_with(changes: &[(u32, Option<&'static [u8]>)]) -> Vec<u8> {
    let base: [(u32, &[u8]); 15] = [
        (8, b"FIX.4.2"),
        (9, b"115"),
        (35, b"D"),
        (49, b"SENDER"),
        (56, b"TARGET"),
        (34, b"1"),
        (52, b"1678886400"),
        (11, b"TestOrd1"),
        (55, b"EUR/USD"),
        (54, b"1"),
        (60, b"1678886400"),
        (38, b"100.5"),
        (40, b"2"),
        (44, b"1.0567"),
        (59, b"0"),
    ];
    let mut fields: Vec<(u32, &[u8])> = Vec::new();
    for (tag, value) in base {
        match changes.iter().find(|(t, _)| *t == tag) {
            Some((_, Some(other))) => fields.push((tag, *other)),
            Some((_, None)) => {}
            None => fields.push((tag, value)),
        }
    }
    framed(&fields)
}

fn decode_all_of(bytes: &[u8]) -> (Result<Option<smt_core::protocol_defs::fix_messages::FixMessage>, CodecError>, usize) {
    let mut buffer = BytesMut::from(bytes);
    let r = decode_fix_message(&mut buffer);
    (r, buffer.len())
}

#[test]
fn empty_buffer_holds_no_message() {
    let mut buffer = BytesMut::new();
    assert_eq!(decode_fix_message(&mut buffer), Ok(None));
    assert!(buffer.is_empty());
}

#[test]
fn begin_string_alone_holds_no_message() {
    let mut buffer = BytesMut::from(&b"8=FIX.4.2\x01"[..]);
    assert_eq!(decode_fix_message(&mut buffer), Ok(None));
    assert_eq!(buffer.as_ref(), b"8=FIX.4.2\x01");
}

#[test]
fn every_proper_prefix_is_left_alone() {
    let whole = logon_with(&[]);
    for cut in 0..whole.len() {
        let mut buffer = BytesMut::from(&whole[..cut]);
        assert_eq!(decode_fix_message(&mut buffer), Ok(None), "cut at {}", cut);
        assert_eq!(buffer.as_ref(), &whole[..cut]);
    }
    let (r, left) = decode_all_of(&whole);
    assert!(matches!(r, Ok(Some(_))));
    assert_eq!(left, 0);
}

#[test]
fn trailer_without_closing_soh_is_no_frame() {
    let mut whole = logon_with(&[]);
    let last = whole.len() - 1;
    whole[last] = b'X';
    let (r, left) = decode_all_of(&whole);
    assert_eq!(r, Ok(None));
    assert_eq!(left, whole.len());
}

#[test]
fn leading_garbage_is_dropped_with_the_message() {
    let whole = logon_with(&[]);
    let mut bytes = b"garbage 8 = 88 \x01\x01".to_vec();
    bytes.extend_from_slice(&whole);
    bytes.extend_from_slice(b"8=FIX");
    let mut buffer = BytesMut::from(&bytes[..]);
    let message = decode_fix_message(&mut buffer).unwrap().unwrap();
    assert_eq!(message.header.sender_comp_id, "CLIENT1");
    assert!(matches!(message.body, FixMessageBody::Logon(_)));
    assert_eq!(buffer.as_ref(), b"8=FIX");
}

#[test]
fn missing_mandatory_tag_is_reported_by_its_number() {
    for tag in [9u32, 35, 49, 56, 34, 52] {
        let (r, left) = decode_all_of(&logon_with(&[(tag, None)]));
        assert_eq!(r, Err(CodecError::MissingField(tag)));
        assert_eq!(left, 0);
    }
    assert_eq!(decode_frame(&logon_with(&[(8, None)])), Err(CodecError::MissingField(8)));
    for tag in [98u32, 108] {
        let (r, _) = decode_all_of(&logon_with(&[(tag, None)]));
        assert_eq!(r, Err(CodecError::MissingField(tag)));
    }
    for tag in [11u32, 55, 54, 60, 38, 40] {
        let (r, _) = decode_all_of(&order_with(&[(tag, None)]));
        assert_eq!(r, Err(CodecError::MissingField(tag)));
    }
}

#[test]
fn the_first_missing_header_tag_decides() {
    let (r, _) = decode_all_of(&logon_with(&[(56, None), (49, None), (98, None)]));
    assert_eq!(r, Err(CodecError::MissingField(49)));
}

#[test]
fn non_digit_in_a_numeric_field_is_an_invalid_value() {
    let (r, _) = decode_all_of(&logon_with(&[(108, Some(b"3O"))]));
    assert_eq!(r, Err(CodecError::InvalidValue { tag: 0, value: "3O".to_string() }));
    let (r, _) = decode_all_of(&logon_with(&[(34, Some(b"-1"))]));
    assert_eq!(r, Err(CodecError::InvalidValue { tag: 0, value: "-1".to_string() }));
    let (r, _) = decode_all_of(&order_with(&[(60, Some(b"12 3"))]));
    assert_eq!(r, Err(CodecError::InvalidValue { tag: 0, value: "12 3".to_string() }));
}

#[test]
fn a_number_beyond_its_width_is_an_invalid_value() {
    let (r, _) = decode_all_of(&logon_with(&[(34, Some(b"4294967296"))]));
    assert_eq!(r, Err(CodecError::InvalidValue { tag: 0, value: "4294967296".to_string() }));
    let (r, _) = decode_all_of(&logon_with(&[(34, Some(b"4294967295"))]));
    assert_eq!(r.unwrap().unwrap().header.msg_seq_num, u32::MAX);
    let (r, _) = decode_all_of(&logon_with(&[(52, Some(b"18446744073709551615"))]));
    assert_eq!(r.unwrap().unwrap().header.sending_time, u64::MAX);
    let (r, _) = decode_all_of(&logon_with(&[(52, Some(b"18446744073709551616"))]));
    assert_eq!(
        r,
        Err(CodecError::InvalidValue { tag: 0, value: "18446744073709551616".to_string() })
    );
}

#[test]
fn invalid_number_text_is_made_printable() {
    let (r, _) = decode_all_of(&logon_with(&[(108, Some(b"3\xff"))]));
    assert_eq!(r, Err(CodecError::InvalidValue { tag: 0, value: "3\u{fffd}".to_string() }));
}

#[test]
fn a_tag_that_is_no_number_is_an_invalid_value() {
    let bytes = framed(&[(8, b"FIX.4.2"), (9, b"0"), (35, b"A")]);
    let mut broken = b"8=FIX.4.2\x01X5=1\x01".to_vec();
    broken.extend_from_slice(&bytes[10..bytes.len() - 7]);
    let sum: u32 = broken.iter().map(|b| *b as u32).sum();
    broken.extend_from_slice(format!("10={:03}\x01", sum % 256).as_bytes());
    let (r, left) = decode_all_of(&broken);
    assert_eq!(r, Err(CodecError::InvalidValue { tag: 0, value: "X5".to_string() }));
    assert_eq!(left, 0);
}

#[test]
fn unknown_message_type_is_unsupported() {
    for kind in ["5", "0", "1", "2", "4", "AB"] {
        let fields: Vec<(u32, &[u8])> = vec![
            (8, b"FIX.4.2"),
            (9, b"0"),
            (35, kind.as_bytes()),
            (49, b"A"),
            (56, b"B"),
            (34, b"7"),
            (52, b"9"),
        ];
        let (r, left) = decode_all_of(&framed(&fields));
        assert_eq!(r, Err(CodecError::UnsupportedMessageType(kind.to_string())));
        assert_eq!(left, 0);
    }
}

#[test]
fn wrong_checksum_is_a_mismatch() {
    let mut whole = logon_with(&[]);
    let n = whole.len();
    assert_eq!(&whole[n - 7..], b"10=147\x01");
    whole[n - 2] = b'8';
    let (r, left) = decode_all_of(&whole);
    assert_eq!(r, Err(CodecError::ChecksumMismatch { expected: 148, actual: 147 }));
    assert_eq!(left, 0);
}

#[test]
fn checksum_that_is_no_byte_is_an_invalid_value() {
    let mut whole = logon_with(&[]);
    let n = whole.len();
    whole[n - 4..n - 1].copy_from_slice(b"1A3");
    let (r, _) = decode_all_of(&whole);
    assert_eq!(r, Err(CodecError::InvalidValue { tag: 10, value: "1A3".to_string() }));
    whole[n - 4..n - 1].copy_from_slice(b"256");
    let (r, _) = decode_all_of(&whole);
    assert_eq!(r, Err(CodecError::InvalidValue { tag: 10, value: "256".to_string() }));
}

#[test]
fn a_frame_beyond_4096_bytes_is_refused_and_dropped() {
    let long = vec![b'S'; 5000];
    let fields: Vec<(u32, &[u8])> = vec![
        (8, b"FIX.4.2"),
        (9, b"0"),
        (35, b"A"),
        (49, &long),
        (56, b"B"),
        (34, b"7"),
        (52, b"9"),
        (98, b"0"),
        (108, b"30"),
    ];
    let mut bytes = framed(&fields);
    bytes.extend_from_slice(b"rest");
    let mut buffer = BytesMut::from(&bytes[..]);
    assert_eq!(
        decode_fix_message(&mut buffer),
        Err(CodecError::InvalidFormat("Message too large".to_string()))
    );
    assert_eq!(buffer.as_ref(), b"rest");
}

#[test]
fn more_than_64_fields_are_too_many() {
    let mut fields: Vec<(u32, &[u8])> = vec![
        (8, b"FIX.4.2"),
        (9, b"0"),
        (35, b"A"),
        (49, b"A"),
        (56, b"B"),
        (34, b"7"),
        (52, b"9"),
        (98, b"0"),
        (108, b"30"),
    ];
    for _ in 0..54 {
        fields.push((5000, b"x"));
    }
    assert_eq!(fields.len(), 63);
    let (r, _) = decode_all_of(&framed(&fields));
    assert!(matches!(r, Ok(Some(_))));
    fields.push((5000, b"x"));
    let (r, left) = decode_all_of(&framed(&fields));
    assert_eq!(r, Err(CodecError::InvalidFormat("Too many fields".to_string())));
    assert_eq!(left, 0);
}

#[test]
fn a_frame_whose_fields_break_off_is_no_message_and_is_dropped() {
    let mut buffer = BytesMut::from(&b"8=FIX.4.2\x0110=\x01AB\x01tail"[..]);
    assert_eq!(decode_fix_message(&mut buffer), Ok(None));
    assert_eq!(buffer.as_ref(), b"tail");
}

#[test]
fn text_that_is_not_utf8_is_refused() {
    let (r, _) = decode_all_of(&logon_with(&[(49, Some(b"CL\xffENT"))]));
    assert_eq!(r, Err(CodecError::StringUtf8));
    let (r, _) = decode_all_of(&order_with(&[(38, Some(b"1\xff"))]));
    assert_eq!(r, Err(CodecError::StrUtf8));
    let (r, _) = decode_all_of(&order_with(&[(44, Some(b"\xc3"))]));
    assert_eq!(r, Err(CodecError::StrUtf8));
}

#[test]
fn a_decimal_that_is_none_is_refused() {
    let (r, _) = decode_all_of(&order_with(&[(38, Some(b"ten"))]));
    assert_eq!(r, Err(CodecError::ParseDecimal));
    let (r, _) = decode_all_of(&order_with(&[(44, Some(b""))]));
    assert_eq!(r, Err(CodecError::ParseDecimal));
}

#[test]
fn coded_values_are_checked() {
    let (r, _) = decode_all_of(&order_with(&[(54, Some(b"3"))]));
    assert_eq!(r, Err(CodecError::InvalidValue { tag: 54, value: "Unknown side '3'".to_string() }));
    let (r, _) = decode_all_of(&order_with(&[(54, Some(b"12"))]));
    assert_eq!(
        r,
        Err(CodecError::InvalidValue { tag: 54, value: "Invalid side value length".to_string() })
    );
    let (r, _) = decode_all_of(&order_with(&[(40, Some(b"9"))]));
    assert_eq!(
        r,
        Err(CodecError::InvalidValue { tag: 40, value: "Unknown order type '9'".to_string() })
    );
    let (r, _) = decode_all_of(&order_with(&[(40, Some(b""))]));
    assert_eq!(
        r,
        Err(CodecError::InvalidValue {
            tag: 40,
            value: "Invalid order type value length".to_string()
        })
    );
    let (r, _) = decode_all_of(&order_with(&[(59, Some(b"2"))]));
    assert_eq!(r, Err(CodecError::InvalidValue { tag: 59, value: "Unknown TIF '2'".to_string() }));
    let (r, _) = decode_all_of(&order_with(&[(59, Some(b"00"))]));
    assert_eq!(
        r,
        Err(CodecError::InvalidValue { tag: 59, value: "Invalid TIF value length".to_string() })
    );
    let (r, _) = decode_all_of(&logon_with(&[(141, Some(b"YY"))]));
    assert_eq!(
        r,
        Err(CodecError::InvalidValue { tag: 141, value: "Invalid flag value length".to_string() })
    );
}

#[test]
fn reset_flag_is_set_by_y_alone() {
    for (text, flag) in [(&b"Y"[..], true), (&b"N"[..], false), (&b"y"[..], false)] {
        let fields: Vec<(u32, &[u8])> = vec![
            (8, b"FIX.4.2"),
            (9, b"67"),
            (35, b"A"),
            (49, b"C"),
            (56, b"S"),
            (34, b"1"),
            (52, b"5"),
            (98, b"0"),
            (108, b"30"),
            (141, text),
        ];
        let (r, _) = decode_all_of(&framed(&fields));
        match r.unwrap().unwrap().body {
            FixMessageBody::Logon(logon) => assert_eq!(logon.reset_seq_num_flag, Some(flag)),
            other => panic!("not a Logon: {:?}", other),
        }
    }
    let (r, _) = decode_all_of(&logon_with(&[(141, None)]));
    match r.unwrap().unwrap().body {
        FixMessageBody::Logon(logon) => assert_eq!(logon.reset_seq_num_flag, None),
        other => panic!("not a Logon: {:?}", other),
    }
}

#[test]
fn the_first_of_two_fields_with_one_tag_counts() {
    let fields: Vec<(u32, &[u8])> = vec![
        (8, b"FIX.4.2"),
        (9, b"67"),
        (35, b"A"),
        (49, b"FIRST"),
        (49, b"SECOND"),
        (56, b"S"),
        (34, b"1"),
        (52, b"5"),
        (98, b"0"),
        (108, b"30"),
    ];
    let (r, _) = decode_all_of(&framed(&fields));
    assert_eq!(r.unwrap().unwrap().header.sender_comp_id, "FIRST");
}

#[test]
fn a_frame_is_decoded_as_the_buffer_would_be() {
    let whole = logon_with(&[]);
    let message = decode_frame(&whole).unwrap().unwrap();
    assert_eq!(message.header.msg_type, "A");
    assert_eq!(
        decode_frame(b"8=\x01"),
        Err(CodecError::InvalidFormat("Message too short".to_string()))
    );
}
