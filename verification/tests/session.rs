use bytes::BytesMut;
use smt_core::codec_engine::fix_codec::{decode_fix_message, encode_fix_message, CodecError};
use smt_core::common_types::{OrderStatus, OrderType, Side, Symbol, TimeInForce};
use smt_core::decimal::Decimal;
use smt_core::metrics::LatencyCounters;
use smt_core::protocol_defs::fix_messages::{
    FixExecutionReport, FixLogon, FixMessageBody, FixNewOrderSingle,
};
use smt_core::session::{
    execution_report_for, logon_reply, Handled, Processed, Session, SessionState,
};

fn sample_order() -> FixNewOrderSingle {
    FixNewOrderSingle {
        cl_ord_id: "TestOrd1".to_string(),
        symbol: Symbol::new("EUR/USD"),
        side: Side::Buy,
        transact_time: 1678886400,
        order_qty: Decimal::new(1005, 1),
        ord_type: OrderType::Limit,
        price: Some(Decimal::new(10567, 4)),
        tif: Some(TimeInForce::Day),
    }
}

#[test]
fn a_logon_is_answered_with_a_logon() {
    assert_eq!(
        logon_reply(),
        FixLogon { encrypt_method: 0, heart_bt_int: 30, reset_seq_num_flag: Some(false) }
    );
}

#[test]
fn an_order_is_accepted_as_new() {
    let report = execution_report_for(&sample_order(), 1700000000123);
    assert_eq!(
        report,
        FixExecutionReport {
            order_id: 1700000000123,
            cl_ord_id: Some("TestOrd1".to_string()),
            exec_id: "EID_1700000000123".to_string(),
            ord_status: OrderStatus::New,
            symbol: Symbol::new("EUR/USD"),
            side: Side::Buy,
            leaves_qty: Decimal::new(1005, 1),
            cum_qty: Decimal::new(0, 0),
            avg_px: Decimal::new(0, 0),
            last_qty: None,
            last_px: None,
            transact_time: 1700000000123,
            text: Some("Order Accepted".to_string()),
        }
    );
    assert_eq!(execution_report_for(&sample_order(), 0).exec_id, "EID_0");
}

#[test]
fn a_client_logs_on_and_places_an_order() {
    let mut session = Session::new();
    assert_eq!(session, Session { state: SessionState::Pending, next_seq_num: 1 });
    let mut counters = LatencyCounters::new();

    let logon = FixLogon { encrypt_method: 0, heart_bt_int: 30, reset_seq_num_flag: Some(true) };
    let sent = encode_fix_message(&logon, "CLIENT1", "SERVER1", 1, 1678886000000).unwrap();
    let mut inbound = BytesMut::from(sent.as_ref());
    let Processed { response, handled } = session.process(&mut inbound, 1678886000500);
    assert_eq!(handled, Handled::LogonAnswered);
    assert!(inbound.is_empty());
    assert_eq!(session, Session { state: SessionState::Authenticated, next_seq_num: 2 });

    let mut reply = BytesMut::from(response.unwrap().as_ref());
    let answer = decode_fix_message(&mut reply).unwrap().unwrap();
    assert!(reply.is_empty());
    assert_eq!(answer.header.msg_type, "A");
    assert_eq!(answer.header.sender_comp_id, "SERVER1");
    assert_eq!(answer.header.target_comp_id, "CLIENT1");
    assert_eq!(answer.header.msg_seq_num, 1);
    assert_eq!(answer.header.sending_time, 1678886000500);
    assert_eq!(
        answer.body,
        FixMessageBody::Logon(FixLogon {
            encrypt_method: 0,
            heart_bt_int: 30,
            reset_seq_num_flag: Some(false)
        })
    );

    let sent = encode_fix_message(&sample_order(), "SENDER", "TARGET", 1, 1678886400).unwrap();
    let mut inbound = BytesMut::from(sent.as_ref());
    let Processed { response, handled } = session.process(&mut inbound, 1678886400777);
    assert_eq!(handled, Handled::OrderAccepted);
    assert_eq!(session, Session { state: SessionState::Authenticated, next_seq_num: 3 });
    let before = counters;
    counters.record(250);
    assert_eq!(counters.orders_processed, before.orders_processed + 1);
    assert!(counters.total_latency_micros > before.total_latency_micros);

    let mut reply = BytesMut::from(response.unwrap().as_ref());
    let answer = decode_fix_message(&mut reply).unwrap().unwrap();
    assert_eq!(answer.header.msg_type, "8");
    assert_eq!(answer.header.sender_comp_id, "TARGET");
    assert_eq!(answer.header.target_comp_id, "SENDER");
    assert_eq!(answer.header.msg_seq_num, 2);
    match answer.body {
        FixMessageBody::ExecutionReport(report) => {
            assert_eq!(report.cl_ord_id, Some("TestOrd1".to_string()));
            assert_eq!(report.ord_status, OrderStatus::New);
            assert_eq!(report.symbol.as_str(), "EUR/USD");
            assert_eq!(report.side, Side::Buy);
            assert_eq!(report.leaves_qty, Decimal::new(1005, 1));
            assert_eq!(report.cum_qty, Decimal::new(0, 0));
            assert_eq!(report.avg_px, Decimal::new(0, 0));
            assert_eq!(report.text, Some("Order Accepted".to_string()));
            assert_eq!(report.order_id, 1678886400777);
            assert_eq!(report.exec_id, "EID_1678886400777");
            assert_eq!(report.transact_time, 1678886400777);
            assert_eq!(report.last_qty, None);
            assert_eq!(report.last_px, None);
        }
        other => panic!("not an execution report: {:?}", other),
    }
}

#[test]
fn an_order_before_the_logon_is_accepted_all_the_same() {
    let mut session = Session::new();
    let sent = encode_fix_message(&sample_order(), "SENDER", "TARGET", 1, 5).unwrap();
    let mut inbound = BytesMut::from(sent.as_ref());
    let out = session.process(&mut inbound, 6);
    assert_eq!(out.handled, Handled::OrderAccepted);
    assert!(out.response.is_some());
    assert_eq!(session, Session { state: SessionState::Pending, next_seq_num: 2 });
}

#[test]
fn what_gets_no_answer_leaves_the_session_as_it_is() {
    let mut session = Session { state: SessionState::Authenticated, next_seq_num: 9 };

    let mut inbound = BytesMut::from(&b"8=FIX.4.2\x019=1"[..]);
    let out = session.process(&mut inbound, 1);
    assert_eq!(out, Processed { response: None, handled: Handled::Incomplete });
    assert_eq!(inbound.as_ref(), b"8=FIX.4.2\x019=1");

    let report = execution_report_for(&sample_order(), 77);
    let sent = encode_fix_message(&report, "S", "T", 4, 78).unwrap();
    let mut inbound = BytesMut::from(sent.as_ref());
    let out = session.process(&mut inbound, 79);
    assert_eq!(out, Processed { response: None, handled: Handled::Unhandled("8".to_string()) });
    assert!(inbound.is_empty());

    let mut broken = sent.to_vec();
    let n = broken.len();
    broken[n - 2] = if broken[n - 2] == b'0' { b'1' } else { b'0' };
    let mut inbound = BytesMut::from(&broken[..]);
    let out = session.process(&mut inbound, 80);
    assert!(matches!(out.handled, Handled::Rejected(CodecError::ChecksumMismatch { .. })));
    assert_eq!(out.response, None);
    assert!(inbound.is_empty());

    assert_eq!(session, Session { state: SessionState::Authenticated, next_seq_num: 9 });
}

#[test]
fn one_chunk_gets_one_answer() {
    let mut session = Session::new();
    let logon = FixLogon { encrypt_method: 0, heart_bt_int: 30, reset_seq_num_flag: None };
    let first = encode_fix_message(&logon, "C", "S", 1, 1).unwrap();
    let second = encode_fix_message(&sample_order(), "C", "S", 2, 2).unwrap();
    let mut inbound = BytesMut::new();
    inbound.extend_from_slice(first.as_ref());
    inbound.extend_from_slice(second.as_ref());
    assert_eq!(session.process(&mut inbound, 3).handled, Handled::LogonAnswered);
    assert_eq!(inbound.as_ref(), second.as_ref());
    assert_eq!(session.process(&mut inbound, 4).handled, Handled::OrderAccepted);
    assert!(inbound.is_empty());
    assert_eq!(session.process(&mut inbound, 5).handled, Handled::Incomplete);
}

#[test]
fn a_session_that_is_terminating_answers_nothing() {
    let mut session = Session::new();
    session.disconnect();
    assert_eq!(session, Session { state: SessionState::Terminating, next_seq_num: 1 });
    let logon = FixLogon { encrypt_method: 0, heart_bt_int: 30, reset_seq_num_flag: None };
    let sent = encode_fix_message(&logon, "C", "S", 1, 1).unwrap();
    let mut inbound = BytesMut::from(sent.as_ref());
    let out = session.process(&mut inbound, 2);
    assert_eq!(out, Processed { response: None, handled: Handled::Ignored });
    assert_eq!(inbound.as_ref(), sent.as_ref());
    assert_eq!(session, Session { state: SessionState::Terminating, next_seq_num: 1 });
}

#[test]
fn the_sequence_number_wraps_around() {
    let mut session = Session { state: SessionState::Authenticated, next_seq_num: u32::MAX };
    let logon = FixLogon { encrypt_method: 0, heart_bt_int: 30, reset_seq_num_flag: None };
    let sent = encode_fix_message(&logon, "C", "S", 1, 1).unwrap();
    let mut inbound = BytesMut::from(sent.as_ref());
    let out = session.process(&mut inbound, 2);
    let mut reply = BytesMut::from(out.response.unwrap().as_ref());
    let answer = decode_fix_message(&mut reply).unwrap().unwrap();
    assert_eq!(answer.header.msg_seq_num, u32::MAX);
    assert_eq!(session.next_seq_num, 0);
}
