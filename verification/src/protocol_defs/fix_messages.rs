//! Typed FIX messages: the standard header and the supported bodies, each
//! with a view that holds its texts as sequences of characters.

use crate::common_types::{OrderID, OrderStatus, OrderType, Side, Symbol, TimeInForce, Timestamp};
use crate::decimal::{Decimal, DecimalView};
use vstd::prelude::*;

verus! {

/// The text that an optional string holds, if it holds one.
pub open spec fn optional_text(text: Option<String>) -> Option<Seq<char>> {
    match text {
        Some(s) => Some(s@),
        None => None,
    }
}

/// The number that an optional decimal holds, if it holds one.
pub open spec fn optional_decimal(number: Option<Decimal>) -> Option<DecimalView> {
    match number {
        Some(d) => Some(d@),
        None => None,
    }
}

/// The standard header of a message.
#[derive(Debug, Clone, PartialEq)]
pub struct FixHeader {
    /// Tag 8: the protocol version, `FIX.4.2`.
    pub begin_string: String,
    /// Tag 9: the number of bytes of the body.
    pub body_length: u32,
    /// Tag 35: one or two characters that name the kind of message.
    pub msg_type: String,
    /// Tag 49.
    pub sender_comp_id: String,
    /// Tag 56.
    pub target_comp_id: String,
    /// Tag 34.
    pub msg_seq_num: u32,
    /// Tag 52, in milliseconds since the epoch.
    pub sending_time: Timestamp,
}

/// A `FixHeader` with its texts as sequences of characters.
pub struct FixHeaderView {
    pub begin_string: Seq<char>,
    pub body_length: u32,
    pub msg_type: Seq<char>,
    pub sender_comp_id: Seq<char>,
    pub target_comp_id: Seq<char>,
    pub msg_seq_num: u32,
    pub sending_time: Timestamp,
}

impl View for FixHeader {
    type V = FixHeaderView;

    open spec fn view(&self) -> FixHeaderView {
        FixHeaderView {
            begin_string: self.begin_string@,
            body_length: self.body_length,
            msg_type: self.msg_type@,
            sender_comp_id: self.sender_comp_id@,
            target_comp_id: self.target_comp_id@,
            msg_seq_num: self.msg_seq_num,
            sending_time: self.sending_time,
        }
    }
}

/// The trailer of a message.
#[derive(Debug, Clone, PartialEq)]
pub struct FixTrailer {
    /// Tag 10: three decimal digits.
    pub checksum: String,
}

/// `D`: a request to enter one order.
#[derive(Debug, Clone, PartialEq)]
pub struct FixNewOrderSingle {
    /// Tag 11.
    pub cl_ord_id: String,
    /// Tag 55.
    pub symbol: Symbol,
    /// Tag 54.
    pub side: Side,
    /// Tag 60, in milliseconds since the epoch.
    pub transact_time: Timestamp,
    /// Tag 38.
    pub order_qty: Decimal,
    /// Tag 40.
    pub ord_type: OrderType,
    /// Tag 44, present on limit orders.
    pub price: Option<Decimal>,
    /// Tag 59.
    pub tif: Option<TimeInForce>,
}

/// A `FixNewOrderSingle` with its text and its numbers by their views, and
/// its symbol as the 16 bytes it holds.
pub struct FixNewOrderSingleView {
    pub cl_ord_id: Seq<char>,
    pub symbol: Seq<u8>,
    pub side: Side,
    pub transact_time: Timestamp,
    pub order_qty: DecimalView,
    pub ord_type: OrderType,
    pub price: Option<DecimalView>,
    pub tif: Option<TimeInForce>,
}

impl View for FixNewOrderSingle {
    type V = FixNewOrderSingleView;

    open spec fn view(&self) -> FixNewOrderSingleView {
        FixNewOrderSingleView {
            cl_ord_id: self.cl_ord_id@,
            symbol: self.symbol.0@,
            side: self.side,
            transact_time: self.transact_time,
            order_qty: self.order_qty@,
            ord_type: self.ord_type,
            price: optional_decimal(self.price),
            tif: self.tif,
        }
    }
}

/// `8`: the state of an order, reported by the exchange.
#[derive(Debug, Clone, PartialEq)]
pub struct FixExecutionReport {
    /// Tag 37.
    pub order_id: OrderID,
    /// Tag 11.
    pub cl_ord_id: Option<String>,
    /// Tag 17.
    pub exec_id: String,
    /// Tag 39.
    pub ord_status: OrderStatus,
    /// Tag 55.
    pub symbol: Symbol,
    /// Tag 54.
    pub side: Side,
    /// Tag 151.
    pub leaves_qty: Decimal,
    /// Tag 14.
    pub cum_qty: Decimal,
    /// Tag 6.
    pub avg_px: Decimal,
    /// Tag 32.
    pub last_qty: Option<Decimal>,
    /// Tag 31.
    pub last_px: Option<Decimal>,
    /// Tag 60, in milliseconds since the epoch.
    pub transact_time: Timestamp,
    /// Tag 58.
    pub text: Option<String>,
}

/// A `FixExecutionReport` with its texts and its numbers by their views, and
/// its symbol as the 16 bytes it holds.
pub struct FixExecutionReportView {
    pub order_id: OrderID,
    pub cl_ord_id: Option<Seq<char>>,
    pub exec_id: Seq<char>,
    pub ord_status: OrderStatus,
    pub symbol: Seq<u8>,
    pub side: Side,
    pub leaves_qty: DecimalView,
    pub cum_qty: DecimalView,
    pub avg_px: DecimalView,
    pub last_qty: Option<DecimalView>,
    pub last_px: Option<DecimalView>,
    pub transact_time: Timestamp,
    pub text: Option<Seq<char>>,
}

impl View for FixExecutionReport {
    type V = FixExecutionReportView;

    open spec fn view(&self) -> FixExecutionReportView {
        FixExecutionReportView {
            order_id: self.order_id,
            cl_ord_id: optional_text(self.cl_ord_id),
            exec_id: self.exec_id@,
            ord_status: self.ord_status,
            symbol: self.symbol.0@,
            side: self.side,
            leaves_qty: self.leaves_qty@,
            cum_qty: self.cum_qty@,
            avg_px: self.avg_px@,
            last_qty: optional_decimal(self.last_qty),
            last_px: optional_decimal(self.last_px),
            transact_time: self.transact_time,
            text: optional_text(self.text),
        }
    }
}

/// `A`: the opening of a session.
#[derive(Debug, Clone, Copy, PartialEq)]
pub struct FixLogon {
    /// Tag 98.
    pub encrypt_method: u32,
    /// Tag 108, in seconds.
    pub heart_bt_int: u32,
    /// Tag 141.
    pub reset_seq_num_flag: Option<bool>,
}

impl View for FixLogon {
    type V = FixLogon;

    open spec fn view(&self) -> FixLogon {
        *self
    }
}

/// `5`: the end of a session.
#[derive(Debug, Clone, PartialEq)]
pub struct FixLogout {
    /// Tag 58: the reason, if one is given.
    pub text: Option<String>,
}

/// `0`: a sign of life.
#[derive(Debug, Clone, PartialEq)]
pub struct FixHeartbeat {
    /// Tag 112: set where the heartbeat answers a test request.
    pub test_req_id: Option<String>,
}

/// `1`: a request for a heartbeat.
#[derive(Debug, Clone, PartialEq)]
pub struct FixTestRequest {
    /// Tag 112.
    pub test_req_id: String,
}

/// `2`: a request to send a range of messages again.
#[derive(Debug, Clone, Copy, PartialEq)]
pub struct FixResendRequest {
    /// Tag 7.
    pub begin_seq_no: u32,
    /// Tag 16; 0 stands for every message after `begin_seq_no`.
    pub end_seq_no: u32,
}

/// `4`: a new sequence number.
#[derive(Debug, Clone, Copy, PartialEq)]
pub struct FixSequenceReset {
    /// Tag 36.
    pub new_seq_no: u32,
    /// Tag 123.
    pub gap_fill_flag: Option<bool>,
}

/// The body of a message, one variant for each kind.
#[derive(Debug, Clone, PartialEq)]
pub enum FixMessageBody {
    NewOrderSingle(FixNewOrderSingle),
    ExecutionReport(FixExecutionReport),
    Logon(FixLogon),
    Logout(FixLogout),
    Heartbeat(FixHeartbeat),
    TestRequest(FixTestRequest),
    ResendRequest(FixResendRequest),
    SequenceReset(FixSequenceReset),
}

/// A `FixMessageBody` with its texts and its numbers by their views.
pub enum FixMessageBodyView {
    NewOrderSingle(FixNewOrderSingleView),
    ExecutionReport(FixExecutionReportView),
    Logon(FixLogon),
    Logout(Option<Seq<char>>),
    Heartbeat(Option<Seq<char>>),
    TestRequest(Seq<char>),
    ResendRequest(FixResendRequest),
    SequenceReset(FixSequenceReset),
}

impl View for FixMessageBody {
    type V = FixMessageBodyView;

    open spec fn view(&self) -> FixMessageBodyView {
        match *self {
            FixMessageBody::NewOrderSingle(m) => FixMessageBodyView::NewOrderSingle(m@),
            FixMessageBody::ExecutionReport(m) => FixMessageBodyView::ExecutionReport(m@),
            FixMessageBody::Logon(m) => FixMessageBodyView::Logon(m),
            FixMessageBody::Logout(m) => FixMessageBodyView::Logout(optional_text(m.text)),
            FixMessageBody::Heartbeat(m) => FixMessageBodyView::Heartbeat(
                optional_text(m.test_req_id),
            ),
            FixMessageBody::TestRequest(m) => FixMessageBodyView::TestRequest(m.test_req_id@),
            FixMessageBody::ResendRequest(m) => FixMessageBodyView::ResendRequest(m),
            FixMessageBody::SequenceReset(m) => FixMessageBodyView::SequenceReset(m),
        }
    }
}

/// A whole message: the header and the body. The trailer is computed when
/// the message is written.
#[derive(Debug, Clone, PartialEq)]
pub struct FixMessage {
    pub header: FixHeader,
    pub body: FixMessageBody,
}

/// A `FixMessage` with its header and its body by their views.
pub struct FixMessageView {
    pub header: FixHeaderView,
    pub body: FixMessageBodyView,
}

impl View for FixMessage {
    type V = FixMessageView;

    open spec fn view(&self) -> FixMessageView {
        FixMessageView { header: self.header@, body: self.body@ }
    }
}

} // verus!
