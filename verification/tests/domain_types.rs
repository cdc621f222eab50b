use bytes::BytesMut;
use smt_core::codec_engine::fix_codec::{decode_fix_message, encode_fix_message};
use smt_core::codec_engine::wire_safety::{
    order_is_wire_safe, report_is_wire_safe, symbol_is_wire_safe,
};
use smt_core::common_types::{Order, OrderStatus, OrderType, Side, Symbol, TimeInForce};
use smt_core::decimal::Decimal;
use smt_core::event_model::{AppEvent, MarketEvent, OrderEvent};
use smt_core::protocol_defs::fix_messages::{
    FixExecutionReport, FixLogon, FixMessageBody, FixNewOrderSingle,
};

#[test]
fn symbol_creation_and_conversion() {
    let sym = Symbol::new("EUR/USD");
    assert_eq!(sym.as_str(), "EUR/USD");

    let long_sym = Symbol::new("VERYLONGSYMBOLNAMEEXCEEDINGLIMIT");
    assert_eq!(long_sym.as_str(), "VERYLONGSYMBOLNA");
}

#[test]
fn create_fix_new_order_single() {
    let nos = FixNewOrderSingle {
        cl_ord_id: "test_ord_123".to_string(),
        symbol: Symbol::new("EUR/USD"),
        side: Side::Buy,
        transact_time: 0,
        order_qty: Decimal::new(1000, 1),
        ord_type: OrderType::Limit,
        price: Some(Decimal::new(112345, 5)),
        tif: Some(TimeInForce::Day),
    };
    assert_eq!(nos.cl_ord_id, "test_ord_123");
    assert_eq!(nos.ord_type, OrderType::Limit);
}

#[test]
fn create_fix_logon() {
    let logon = FixLogon { encrypt_method: 0, heart_bt_int: 30, reset_seq_num_flag: Some(true) };
    assert_eq!(logon.heart_bt_int, 30);
}

#[test]
fn create_fix_execution_report() {
    let er = FixExecutionReport {
        order_id: 1,
        cl_ord_id: Some("client_ord_001".to_string()),
        exec_id: "exec_id_987".to_string(),
        ord_status: OrderStatus::Filled,
        symbol: Symbol::new("AAPL"),
        side: Side::Sell,
        leaves_qty: Decimal::new(0, 1),
        cum_qty: Decimal::new(500, 1),
        avg_px: Decimal::new(17550, 2),
        last_qty: Some(Decimal::new(500, 1)),
        last_px: Some(Decimal::new(17550, 2)),
        transact_time: 123456789,
        text: Some("Order Filled".to_string()),
    };
    assert_eq!(er.ord_status, OrderStatus::Filled);
    assert_eq!(er.avg_px, Decimal::new(17550, 2));
}

#[test]
fn order_creation() {
    let order = Order::new(
        1,
        Symbol::new("AAPL"),
        Side::Buy,
        OrderType::Limit,
        Decimal::new(1000, 1),
        Some(Decimal::new(15025, 2)),
        TimeInForce::Day,
        0,
        "client_ord_123".to_string(),
    );
    assert_eq!(order.id, 1);
    assert_eq!(order.status, OrderStatus::New);
    assert_eq!(order.price, Some(Decimal::new(15025, 2)));
}

#[test]
fn market_event_creation() {
    let trade = MarketEvent::Trade {
        symbol: Symbol::new("BTC/USD"),
        price: Decimal::new(500000, 1),
        quantity: Decimal::new(5, 1),
        timestamp: 1234567890,
    };
    match trade {
        MarketEvent::Trade { symbol, price, .. } => {
            assert_eq!(symbol.as_str(), "BTC/USD");
            assert_eq!(price, Decimal::new(500000, 1));
        }
        _ => panic!("Incorrect MarketEvent type"),
    }
}

#[test]
fn order_event_creation() {
    let accepted = OrderEvent::OrderAccepted {
        order_id: 1001,
        client_order_id: "client_abc".to_string(),
        symbol: Symbol::new("ETH/USD"),
        timestamp: 1234567891,
    };
    if let OrderEvent::OrderAccepted { order_id, .. } = accepted {
        assert_eq!(order_id, 1001);
    } else {
        panic!("Incorrect OrderEvent type");
    }

    let filled = OrderEvent::OrderFilled {
        order_id: 1002,
        fill_price: Decimal::new(40000, 1),
        fill_quantity: Decimal::new(20, 1),
        trade_id: Some("trade_xyz".to_string()),
        timestamp: 1234567892,
    };
    if let OrderEvent::OrderFilled { fill_price, .. } = filled {
        assert_eq!(fill_price, Decimal::new(40000, 1));
    } else {
        panic!("Incorrect OrderEvent type");
    }
}

#[test]
fn app_event_wrapping() {
    let market_ev = MarketEvent::TopOfBookUpdate {
        symbol: Symbol::new("SOL/USD"),
        bid_price: Some(Decimal::new(1500, 1)),
        bid_quantity: Some(Decimal::new(100, 1)),
        ask_price: Some(Decimal::new(1505, 1)),
        ask_quantity: Some(Decimal::new(120, 1)),
        timestamp: 1234567893,
    };
    let app_ev = AppEvent::Market(market_ev.clone());

    match app_ev {
        AppEvent::Market(MarketEvent::TopOfBookUpdate { symbol, .. }) => {
            assert_eq!(symbol.as_str(), "SOL/USD");
        }
        _ => panic!("Incorrect AppEvent wrapping or type"),
    }
}

#[test]
fn a_symbol_is_its_first_16_bytes_padded_with_zeros() {
    assert_eq!(Symbol::new("").0, [0u8; 16]);
    assert_eq!(Symbol::new("").as_str(), "");
    assert_eq!(Symbol::new("AB").0, *b"AB\0\0\0\0\0\0\0\0\0\0\0\0\0\0");
    assert_eq!(Symbol::new("0123456789ABCDEF").0, *b"0123456789ABCDEF");
    assert_eq!(Symbol::new("0123456789ABCDEFG").0, *b"0123456789ABCDEF");
    assert_eq!(Symbol::new("0123456789ABCDEF").as_str(), "0123456789ABCDEF");
    assert_eq!(Symbol::new("A\0B").as_str(), "A");
    assert_eq!(Symbol(*b"\0BCDEFGHIJKLMNOP").as_str(), "");
    assert!(Symbol::new("AAPL") < Symbol::new("AAPM"));
    assert_eq!(Symbol::new("AAPL"), Symbol(*b"AAPL\0\0\0\0\0\0\0\0\0\0\0\0"));
}

#[test]
fn a_symbol_cut_inside_a_character_prints_as_nothing() {
    let cut = Symbol::new("0123456789ABCDE\u{e9}");
    assert_eq!(cut.0[15], 0xc3);
    assert_eq!(cut.as_str(), "");
    assert!(!symbol_is_wire_safe(&cut));
    assert!(symbol_is_wire_safe(&Symbol::new("EUR/USD")));
    assert!(symbol_is_wire_safe(&Symbol::new("0123456789ABCDE\u{e9}X")) == false);
    assert!(symbol_is_wire_safe(&Symbol::new("\u{e9}t\u{e9}")));
    assert!(!symbol_is_wire_safe(&Symbol(*b"A\0B\0\0\0\0\0\0\0\0\0\0\0\0\0")));
    assert!(!symbol_is_wire_safe(&Symbol::new("A\u{1}B")));
    assert!(!symbol_is_wire_safe(&Symbol::new("X10=Y")));
}

#[test]
fn a_long_symbol_goes_round_in_its_cut_form() {
    let order = FixNewOrderSingle {
        cl_ord_id: "1".to_string(),
        symbol: Symbol::new("VERYLONGSYMBOLNAMEEXCEEDINGLIMIT"),
        side: Side::Sell,
        transact_time: 1,
        order_qty: Decimal::new(1, 0),
        ord_type: OrderType::Market,
        price: None,
        tif: None,
    };
    assert!(order_is_wire_safe(&order));
    let encoded = encode_fix_message(&order, "S", "T", 1, 1).unwrap();
    assert!(encoded.windows(20).any(|w| w == b"55=VERYLONGSYMBOLNA\x01"));
    let mut buffer = BytesMut::from(encoded.as_ref());
    let message = decode_fix_message(&mut buffer).unwrap().unwrap();
    match message.body {
        FixMessageBody::NewOrderSingle(back) => {
            assert_eq!(back.symbol.as_str(), "VERYLONGSYMBOLNA");
            assert_eq!(back, order);
        }
        other => panic!("not an order: {:?}", other),
    }
}

#[test]
fn an_execution_report_goes_round() {
    let full = FixExecutionReport {
        order_id: u64::MAX,
        cl_ord_id: Some("client_ord_001".to_string()),
        exec_id: "exec=id 987".to_string(),
        ord_status: OrderStatus::Expired,
        symbol: Symbol::new("AAPL"),
        side: Side::Sell,
        leaves_qty: Decimal::new(0, 1),
        cum_qty: Decimal::new(500, 1),
        avg_px: Decimal::new(-17550, 2),
        last_qty: Some(Decimal::new(500, 1)),
        last_px: Some(Decimal::new(17550, 2)),
        transact_time: 123456789,
        text: Some("Order Filled \u{2713}".to_string()),
    };
    let bare = FixExecutionReport {
        cl_ord_id: None,
        last_qty: None,
        last_px: None,
        text: None,
        ord_status: OrderStatus::PendingReplace,
        ..full.clone()
    };
    for report in [full, bare] {
        assert!(report_is_wire_safe(&report));
        let encoded = encode_fix_message(&report, "S", "T", 9, 10).unwrap();
        let mut buffer = BytesMut::from(encoded.as_ref());
        let message = decode_fix_message(&mut buffer).unwrap().unwrap();
        assert_eq!(message.header.msg_type, "8");
        let counted = encoded.windows(4).position(|w| w == b"\x0135=").unwrap() + 1;
        assert_eq!(message.header.body_length as usize, encoded.len() - 7 - counted);
        assert_eq!(message.body, FixMessageBody::ExecutionReport(report));
        assert!(buffer.is_empty());
    }
}

#[test]
fn every_coded_value_goes_round() {
    for side in [Side::Buy, Side::Sell] {
        for ord_type in [OrderType::Market, OrderType::Limit] {
            for tif in [
                None,
                Some(TimeInForce::Day),
                Some(TimeInForce::GTC),
                Some(TimeInForce::IOC),
                Some(TimeInForce::FOK),
                Some(TimeInForce::GTD),
            ] {
                let order = FixNewOrderSingle {
                    cl_ord_id: "id".to_string(),
                    symbol: Symbol::new("S"),
                    side,
                    transact_time: 0,
                    order_qty: Decimal::new(1, 0),
                    ord_type,
                    price: None,
                    tif,
                };
                let encoded = encode_fix_message(&order, "S", "T", 1, 1).unwrap();
                let mut buffer = BytesMut::from(encoded.as_ref());
                let message = decode_fix_message(&mut buffer).unwrap().unwrap();
                assert_eq!(message.body, FixMessageBody::NewOrderSingle(order));
            }
        }
    }
    for status in [
        OrderStatus::New,
        OrderStatus::PartiallyFilled,
        OrderStatus::Filled,
        OrderStatus::Cancelled,
        OrderStatus::Rejected,
        OrderStatus::PendingCancel,
        OrderStatus::PendingReplace,
        OrderStatus::Expired,
    ] {
        let report = FixExecutionReport {
            order_id: 1,
            cl_ord_id: None,
            exec_id: "e".to_string(),
            ord_status: status,
            symbol: Symbol::new("S"),
            side: Side::Buy,
            leaves_qty: Decimal::new(0, 0),
            cum_qty: Decimal::new(0, 0),
            avg_px: Decimal::new(0, 0),
            last_qty: None,
            last_px: None,
            transact_time: 2,
            text: None,
        };
        let encoded = encode_fix_message(&report, "S", "T", 1, 1).unwrap();
        let mut buffer = BytesMut::from(encoded.as_ref());
        let message = decode_fix_message(&mut buffer).unwrap().unwrap();
        assert_eq!(message.body, FixMessageBody::ExecutionReport(report));
    }
}

#[test]
fn an_identifier_with_a_trailer_mark_does_not_go_round() {
    let order = FixNewOrderSingle {
        cl_ord_id: "A10=B".to_string(),
        symbol: Symbol::new("S"),
        side: Side::Buy,
        transact_time: 0,
        order_qty: Decimal::new(1, 0),
        ord_type: OrderType::Market,
        price: None,
        tif: None,
    };
    assert!(!order_is_wire_safe(&order));
    let encoded = encode_fix_message(&order, "S", "T", 1, 1).unwrap();
    let mut buffer = BytesMut::from(encoded.as_ref());
    let r = decode_fix_message(&mut buffer);
    assert!(!matches!(r, Ok(Some(ref m)) if m.body == FixMessageBody::NewOrderSingle(order.clone())));
}
