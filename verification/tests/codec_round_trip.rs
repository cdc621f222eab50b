use bytes::BytesMut;
use smt_core::codec_engine::fix_codec::{
    calculate_checksum, decode_fix_message, encode_fix_message, CodecError,
};
use smt_core::common_types::{OrderType, Side, Symbol, TimeInForce};
use smt_core::decimal::Decimal;
use smt_core::protocol_defs::fix_messages::{FixLogon, FixMessageBody, FixNewOrderSingle};

fn sample_order() -> FixNewOrderSingle {
    FixNewOrderSingle {
        cl_ord_id: "TestOrd1".to_string(),
        symbol: Symbol::new("EUR/USD"),
        side: Side::Buy,
        transact_time: 1678886400,
        order_qty: Decimal::new(1005, 1),
        ord_type: OrderType::Limit,
        price: Some(Decimal::new(10567, 4)),
        tif: Some(TimeInForce::Day),
    }
}

#[test]
fn test_encode_decode_new_order_single() -> Result<(), CodecError> {
    let nos = sample_order();

    let encoded_bytes = encode_fix_message(&nos, "SENDER", "TARGET", 1, 1678886400)?;
    println!("Encoded NOS: {}", String::from_utf8_lossy(&encoded_bytes));

    let mut buffer = BytesMut::from(encoded_bytes.as_ref());
    let decoded_msg_opt = decode_fix_message(&mut buffer)?;

    assert!(decoded_msg_opt.is_some());
    if let Some(decoded_msg) = decoded_msg_opt {
        assert_eq!(decoded_msg.header.msg_type, "D");
        if let FixMessageBody::NewOrderSingle(decoded_nos) = decoded_msg.body {
            assert_eq!(decoded_nos.cl_ord_id, "TestOrd1");
            assert_eq!(decoded_nos.symbol.as_str(), "EUR/USD");
            assert_eq!(decoded_nos.side, Side::Buy);
            assert_eq!(decoded_nos.order_qty, Decimal::new(1005, 1));
            assert_eq!(decoded_nos.price, Some(Decimal::new(10567, 4)));
        } else {
            panic!("Decoded message is not NewOrderSingle");
        }
    }
    Ok(())
}

#[test]
fn test_encode_decode_logon() -> Result<(), CodecError> {
    let logon = FixLogon { encrypt_method: 0, heart_bt_int: 30, reset_seq_num_flag: Some(true) };

    let encoded_bytes = encode_fix_message(&logon, "CLIENT1", "SERVER1", 1, 1678886000)?;
    println!("Encoded Logon: {}", String::from_utf8_lossy(&encoded_bytes));

    let mut buffer = BytesMut::from(encoded_bytes.as_ref());
    let decoded_msg_opt = decode_fix_message(&mut buffer)?;
    assert!(decoded_msg_opt.is_some());
    if let Some(decoded_msg) = decoded_msg_opt {
        assert_eq!(decoded_msg.header.msg_type, "A");
        if let FixMessageBody::Logon(decoded_logon) = decoded_msg.body {
            assert_eq!(decoded_logon.heart_bt_int, 30);
            assert_eq!(decoded_logon.reset_seq_num_flag, Some(true));
        } else {
            panic!("Decoded message is not Logon");
        }
    }
    Ok(())
}

#[test]
fn test_checksum_calculation() {
    let data = b"8=FIX.4.2\x019=70\x0135=D\x0149=SENDER\x0156=TARGET\x0134=1\x0152=20230315-12:00:00.000\x0111=TestOrd1\x0155=EUR/USD\x0154=1\x0160=1678886400\x0138=100.5\x0140=2\x0144=1.0567\x0159=0\x01";
    let checksum = calculate_checksum(data);
    assert!(checksum > 0);
}

#[test]
fn checksum_is_the_byte_sum_modulo_256() {
    let data = b"8=FIX.4.2\x019=70\x0135=D\x0149=SENDER\x0156=TARGET\x0134=1\x0152=20230315-12:00:00.000\x0111=TestOrd1\x0155=EUR/USD\x0154=1\x0160=1678886400\x0138=100.5\x0140=2\x0144=1.0567\x0159=0\x01";
    assert_eq!(calculate_checksum(data), 69);
    assert_eq!(calculate_checksum(b""), 0);
    assert_eq!(calculate_checksum(&[255, 1]), 0);
    assert_eq!(calculate_checksum(&[200, 100]), 44);
}

#[test]
fn test_full_fix_new_order_single_encode_decode_flow() -> Result<(), CodecError> {
    let original_nos = FixNewOrderSingle {
        cl_ord_id: "IntegrationTestOrd1".to_string(),
        symbol: Symbol::new("BTC/USD"),
        side: Side::Buy,
        transact_time: 1678886400123,
        order_qty: Decimal::new(125, 2),
        ord_type: OrderType::Limit,
        price: Some(Decimal::new(6000050, 2)),
        tif: Some(TimeInForce::GTC),
    };

    let encoded_bytes = encode_fix_message(
        &original_nos,
        "INTEGRATION_SENDER",
        "INTEGRATION_TARGET",
        101,
        1678886400123,
    )?;

    let mut buffer = BytesMut::from(encoded_bytes.as_ref());

    let decoded_msg_opt = decode_fix_message(&mut buffer)?;

    assert!(decoded_msg_opt.is_some(), "Decoded message should not be None");
    let decoded_msg = decoded_msg_opt.unwrap();

    assert_eq!(decoded_msg.header.msg_type, "D");
    assert_eq!(decoded_msg.header.sender_comp_id, "INTEGRATION_SENDER");
    assert_eq!(decoded_msg.header.target_comp_id, "INTEGRATION_TARGET");
    assert_eq!(decoded_msg.header.msg_seq_num, 101);

    if let FixMessageBody::NewOrderSingle(decoded_nos) = decoded_msg.body {
        assert_eq!(decoded_nos.cl_ord_id, original_nos.cl_ord_id);
        assert_eq!(decoded_nos.symbol, original_nos.symbol);
        assert_eq!(decoded_nos.side, original_nos.side);
        assert_eq!(decoded_nos.transact_time, original_nos.transact_time);
        assert_eq!(decoded_nos.order_qty, original_nos.order_qty);
        assert_eq!(decoded_nos.ord_type, original_nos.ord_type);
        assert_eq!(decoded_nos.price, original_nos.price);
        assert_eq!(decoded_nos.tif, original_nos.tif);
    } else {
        panic!("Decoded message body is not NewOrderSingle as expected.");
    }

    Ok(())
}

#[test]
fn test_full_fix_logon_encode_decode_flow() -> Result<(), CodecError> {
    let original_logon =
        FixLogon { encrypt_method: 0, heart_bt_int: 30, reset_seq_num_flag: Some(true) };

    let encoded_bytes =
        encode_fix_message(&original_logon, "CLIENT_APP", "FIX_SERVER", 1, 1678886000000)?;

    let mut buffer = BytesMut::from(encoded_bytes.as_ref());
    let decoded_msg_opt = decode_fix_message(&mut buffer)?;

    assert!(decoded_msg_opt.is_some(), "Decoded Logon message should not be None");
    let decoded_msg = decoded_msg_opt.unwrap();

    assert_eq!(decoded_msg.header.msg_type, "A");
    assert_eq!(decoded_msg.header.sender_comp_id, "CLIENT_APP");

    if let FixMessageBody::Logon(decoded_logon) = decoded_msg.body {
        assert_eq!(decoded_logon.encrypt_method, original_logon.encrypt_method);
        assert_eq!(decoded_logon.heart_bt_int, original_logon.heart_bt_int);
        assert_eq!(decoded_logon.reset_seq_num_flag, original_logon.reset_seq_num_flag);
    } else {
        panic!("Decoded message body is not Logon as expected.");
    }

    Ok(())
}

#[test]
fn logon_is_written_field_by_field() {
    let logon = FixLogon { encrypt_method: 0, heart_bt_int: 30, reset_seq_num_flag: Some(true) };
    let encoded = encode_fix_message(&logon, "CLIENT1", "SERVER1", 1, 1678886000000).unwrap();
    let expected: &[u8] = b"8=FIX.4.2\x019=67\x0135=A\x0149=CLIENT1\x0156=SERVER1\x0134=1\x0152=1678886000000\x0198=0\x01108=30\x01141=Y\x0110=147\x01";
    assert_eq!(encoded.as_ref(), expected);
}

#[test]
fn logon_decodes_to_what_was_encoded() {
    let logon = FixLogon { encrypt_method: 0, heart_bt_int: 30, reset_seq_num_flag: Some(true) };
    let encoded = encode_fix_message(&logon, "CLIENT1", "SERVER1", 1, 1678886000000).unwrap();
    let mut buffer = BytesMut::from(encoded.as_ref());
    let message = decode_fix_message(&mut buffer).unwrap().unwrap();
    assert_eq!(message.header.begin_string, "FIX.4.2");
    assert_eq!(message.header.body_length, 67);
    assert_eq!(message.header.msg_type, "A");
    assert_eq!(message.header.sender_comp_id, "CLIENT1");
    assert_eq!(message.header.target_comp_id, "SERVER1");
    assert_eq!(message.header.msg_seq_num, 1);
    assert_eq!(message.header.sending_time, 1678886000000);
    assert_eq!(message.body, FixMessageBody::Logon(logon));
    assert!(buffer.is_empty());
}

#[test]
fn new_order_single_is_written_field_by_field() {
    let encoded = encode_fix_message(&sample_order(), "SENDER", "TARGET", 1, 1678886400).unwrap();
    let expected: &[u8] = b"8=FIX.4.2\x019=115\x0135=D\x0149=SENDER\x0156=TARGET\x0134=1\x0152=1678886400\x0111=TestOrd1\x0155=EUR/USD\x0154=1\x0160=1678886400\x0138=100.5\x0140=2\x0144=1.0567\x0159=0\x0110=115\x01";
    assert_eq!(encoded.as_ref(), expected);
}

#[test]
fn new_order_single_decodes_to_what_was_encoded() {
    let order = sample_order();
    let encoded = encode_fix_message(&order, "SENDER", "TARGET", 1, 1678886400).unwrap();
    let mut buffer = BytesMut::from(encoded.as_ref());
    let message = decode_fix_message(&mut buffer).unwrap().unwrap();
    assert_eq!(message.header.msg_type, "D");
    assert_eq!(message.body, FixMessageBody::NewOrderSingle(order));
    assert!(buffer.is_empty());
}

#[test]
fn two_messages_in_one_buffer_come_out_in_order() {
    let logon = FixLogon { encrypt_method: 0, heart_bt_int: 30, reset_seq_num_flag: Some(true) };
    let order = sample_order();
    let first = encode_fix_message(&logon, "CLIENT1", "SERVER1", 1, 1678886000000).unwrap();
    let second = encode_fix_message(&order, "SENDER", "TARGET", 1, 1678886400).unwrap();
    let mut buffer = BytesMut::new();
    buffer.extend_from_slice(first.as_ref());
    buffer.extend_from_slice(second.as_ref());

    let a = decode_fix_message(&mut buffer).unwrap().unwrap();
    assert_eq!(a.body, FixMessageBody::Logon(logon));
    assert_eq!(buffer.as_ref(), second.as_ref());
    let b = decode_fix_message(&mut buffer).unwrap().unwrap();
    assert_eq!(b.body, FixMessageBody::NewOrderSingle(order));
    assert!(buffer.is_empty());
    assert_eq!(decode_fix_message(&mut buffer), Ok(None));
}

fn declared_length_and_prefix(encoded: &[u8]) -> (usize, usize) {
    assert!(encoded.starts_with(b"8=FIX.4.2\x019="));
    let digits_start = 12;
    let digits_end = digits_start + encoded[digits_start..].iter().position(|b| *b == 1).unwrap();
    let declared: usize =
        String::from_utf8(encoded[digits_start..digits_end].to_vec()).unwrap().parse().unwrap();
    (declared, digits_end + 1)
}

#[test]
fn the_length_is_prefix_and_declared_body_and_trailer() {
    let logon = FixLogon { encrypt_method: 7, heart_bt_int: 0, reset_seq_num_flag: None };
    let messages = [
        encode_fix_message(&logon, "", "", 0, 0).unwrap(),
        encode_fix_message(&logon, "CLIENT1", "SERVER1", 12345, u64::MAX).unwrap(),
        encode_fix_message(&sample_order(), "S", "T", u32::MAX, 1678886400).unwrap(),
    ];
    for encoded in messages {
        let (declared, prefix_len) = declared_length_and_prefix(encoded.as_ref());
        assert_eq!(encoded.len(), prefix_len + declared + 7);
        assert_eq!(&encoded[prefix_len..prefix_len + 3], b"35=");
        assert_eq!(encoded[prefix_len + declared - 1], 1);
        assert_eq!(&encoded[prefix_len + declared..prefix_len + declared + 3], b"10=");
    }
}

#[test]
fn the_trailer_holds_the_sum_of_all_bytes_before_it() {
    let logon = FixLogon { encrypt_method: 7, heart_bt_int: 0, reset_seq_num_flag: Some(false) };
    let messages = [
        encode_fix_message(&logon, "", "", 0, 0).unwrap(),
        encode_fix_message(&logon, "CLIENT1", "SERVER1", 12345, u64::MAX).unwrap(),
        encode_fix_message(&sample_order(), "S", "T", u32::MAX, 1678886400).unwrap(),
    ];
    for encoded in messages {
        let n = encoded.len();
        let sum: u32 = encoded[..n - 7].iter().map(|b| *b as u32).sum();
        assert_eq!(&encoded[n - 7..n - 4], b"10=");
        assert_eq!(&encoded[n - 4..n - 1], format!("{:03}", sum % 256).as_bytes());
        assert_eq!(encoded[n - 1], 1);
        assert_eq!(calculate_checksum(&encoded[..n - 7]) as u32, sum % 256);
    }
}
