//! The wire image of each message body: the byte that stands for each
//! enumerated value, and the fields of each body in wire order.

use super::wire::{digits, WireField};
use crate::common_types::{symbol_text, OrderStatus, OrderType, Side, TimeInForce};
use crate::decimal::DecimalView;
use crate::protocol_defs::fix_messages::{
    FixExecutionReportView, FixLogon, FixNewOrderSingleView,
};
use vstd::prelude::*;
use vstd::utf8::*;

verus! {

/// The byte that stands for a side: `1` to buy, `2` to sell.
pub open spec fn side_byte(side: Side) -> u8 {
    match side {
        Side::Buy => 49,
        Side::Sell => 50,
    }
}

/// The byte that stands for an order type: `1` for market, `2` for limit.
pub open spec fn ord_type_byte(ord_type: OrderType) -> u8 {
    match ord_type {
        OrderType::Market => 49,
        OrderType::Limit => 50,
    }
}

/// The byte that stands for a time in force: `0` day, `1` GTC, `3` IOC,
/// `4` FOK, `6` GTD.
pub open spec fn tif_byte(tif: TimeInForce) -> u8 {
    match tif {
        TimeInForce::Day => 48,
        TimeInForce::GTC => 49,
        TimeInForce::IOC => 51,
        TimeInForce::FOK => 52,
        TimeInForce::GTD => 54,
    }
}

/// The byte that stands for an order status: `0` new, `1` partially filled,
/// `2` filled, `4` cancelled, `5` pending replace, `6` pending cancel,
/// `8` rejected, `C` expired.
pub open spec fn status_byte(status: OrderStatus) -> u8 {
    match status {
        OrderStatus::New => 48,
        OrderStatus::PartiallyFilled => 49,
        OrderStatus::Filled => 50,
        OrderStatus::Cancelled => 52,
        OrderStatus::PendingReplace => 53,
        OrderStatus::PendingCancel => 54,
        OrderStatus::Rejected => 56,
        OrderStatus::Expired => 67,
    }
}

/// The byte that stands for a flag: `Y` or `N`.
pub open spec fn flag_byte(flag: bool) -> u8 {
    if flag {
        89
    } else {
        78
    }
}

/// The side that a byte stands for, if it stands for one.
pub open spec fn side_of(byte: u8) -> Option<Side> {
    if byte == 49 {
        Some(Side::Buy)
    } else if byte == 50 {
        Some(Side::Sell)
    } else {
        None
    }
}

/// The order type that a byte stands for, if it stands for one.
pub open spec fn ord_type_of(byte: u8) -> Option<OrderType> {
    if byte == 49 {
        Some(OrderType::Market)
    } else if byte == 50 {
        Some(OrderType::Limit)
    } else {
        None
    }
}

/// The time in force that a byte stands for, if it stands for one.
pub open spec fn tif_of(byte: u8) -> Option<TimeInForce> {
    if byte == 48 {
        Some(TimeInForce::Day)
    } else if byte == 49 {
        Some(TimeInForce::GTC)
    } else if byte == 51 {
        Some(TimeInForce::IOC)
    } else if byte == 52 {
        Some(TimeInForce::FOK)
    } else if byte == 54 {
        Some(TimeInForce::GTD)
    } else {
        None
    }
}

/// The order status that a byte stands for, if it stands for one.
pub open spec fn status_of(byte: u8) -> Option<OrderStatus> {
    if byte == 48 {
        Some(OrderStatus::New)
    } else if byte == 49 {
        Some(OrderStatus::PartiallyFilled)
    } else if byte == 50 {
        Some(OrderStatus::Filled)
    } else if byte == 52 {
        Some(OrderStatus::Cancelled)
    } else if byte == 53 {
        Some(OrderStatus::PendingReplace)
    } else if byte == 54 {
        Some(OrderStatus::PendingCancel)
    } else if byte == 56 {
        Some(OrderStatus::Rejected)
    } else if byte == 67 {
        Some(OrderStatus::Expired)
    } else {
        None
    }
}

/// A field that is only there where it has a value.
pub open spec fn optional_field(tag: u32, value: Option<Seq<u8>>) -> Seq<WireField> {
    match value {
        Some(value) => seq![WireField { tag, value }],
        None => Seq::empty(),
    }
}

/// The bytes of an optional text.
pub open spec fn optional_text_bytes(text: Option<Seq<char>>) -> Option<Seq<u8>> {
    match text {
        Some(text) => Some(encode_utf8(text)),
        None => None,
    }
}

/// The bytes of the text of an optional decimal.
pub open spec fn optional_decimal_bytes(number: Option<DecimalView>) -> Option<Seq<u8>> {
    match number {
        Some(number) => Some(encode_utf8(number.text())),
        None => None,
    }
}

/// The fields of a Logon, in wire order: 98, 108, and 141 where the flag is set.
pub open spec fn logon_fields(m: FixLogon) -> Seq<WireField> {
    seq![
        WireField { tag: 98, value: digits(m.encrypt_method as nat) },
        WireField { tag: 108, value: digits(m.heart_bt_int as nat) },
    ] + optional_field(
        141,
        match m.reset_seq_num_flag {
            Some(flag) => Some(seq![flag_byte(flag)]),
            None => None,
        },
    )
}

/// The fields of a NewOrderSingle, in wire order: 11, 55, 54, 60, 38, 40, and
/// 44 and 59 where they have a value.
pub open spec fn new_order_single_fields(m: FixNewOrderSingleView) -> Seq<WireField> {
    seq![
        WireField { tag: 11, value: encode_utf8(m.cl_ord_id) },
        WireField { tag: 55, value: symbol_text(m.symbol) },
        WireField { tag: 54, value: seq![side_byte(m.side)] },
        WireField { tag: 60, value: digits(m.transact_time as nat) },
        WireField { tag: 38, value: encode_utf8(m.order_qty.text()) },
        WireField { tag: 40, value: seq![ord_type_byte(m.ord_type)] },
    ] + optional_field(44, optional_decimal_bytes(m.price)) + optional_field(
        59,
        match m.tif {
            Some(tif) => Some(seq![tif_byte(tif)]),
            None => None,
        },
    )
}

/// The fields that identify an execution: 37, 11 where set, 17 and 39.
pub open spec fn execution_identity_fields(m: FixExecutionReportView) -> Seq<WireField> {
    seq![WireField { tag: 37, value: digits(m.order_id as nat) }] + optional_field(
        11,
        optional_text_bytes(m.cl_ord_id),
    ) + seq![
        WireField { tag: 17, value: encode_utf8(m.exec_id) },
        WireField { tag: 39, value: seq![status_byte(m.ord_status)] },
    ]
}

/// The fields that name what was traded: 55 and 54.
pub open spec fn execution_instrument_fields(m: FixExecutionReportView) -> Seq<WireField> {
    seq![
        WireField { tag: 55, value: symbol_text(m.symbol) },
        WireField { tag: 54, value: seq![side_byte(m.side)] },
    ]
}

/// The quantities and prices of an execution: 151, 14, 6, and 32 and 31
/// where set.
pub open spec fn execution_quantity_fields(m: FixExecutionReportView) -> Seq<WireField> {
    seq![
        WireField { tag: 151, value: encode_utf8(m.leaves_qty.text()) },
        WireField { tag: 14, value: encode_utf8(m.cum_qty.text()) },
        WireField { tag: 6, value: encode_utf8(m.avg_px.text()) },
    ] + optional_field(32, optional_decimal_bytes(m.last_qty)) + optional_field(
        31,
        optional_decimal_bytes(m.last_px),
    )
}

/// The fields that close an execution report: 60, and 58 where set.
pub open spec fn execution_closing_fields(m: FixExecutionReportView) -> Seq<WireField> {
    seq![WireField { tag: 60, value: digits(m.transact_time as nat) }] + optional_field(
        58,
        optional_text_bytes(m.text),
    )
}

/// The fields of an ExecutionReport, in wire order: 37, 11 where set, 17, 39,
/// 55, 54, 151, 14, 6, 32 and 31 where set, 60, and 58 where set.
pub open spec fn execution_report_fields(m: FixExecutionReportView) -> Seq<WireField> {
    execution_identity_fields(m) + execution_instrument_fields(m) + execution_quantity_fields(m)
        + execution_closing_fields(m)
}

} // verus!
