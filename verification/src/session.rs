//! What a session decides: how each inbound message is answered, how the
//! sequence of outbound messages is numbered, and when the session stops
//! answering. Reading and writing the socket is left to the caller.

use crate::codec_engine::body_fields::{execution_report_fields, logon_fields};
use crate::codec_engine::bytes_buf::{buffer_bytes, frozen_bytes};
use crate::codec_engine::error::{CodecError, CodecErrorView};
use crate::codec_engine::fix_codec::{decode_fix_message, decoded, encode_fix_message, FixEncoder};
use crate::codec_engine::framing::{declared_length, framed_message};
use crate::codec_engine::wire::{ascii_text, digits, fields_bytes, u64_to_string, WireField};
use crate::common_types::OrderStatus;
use crate::decimal::{Decimal, DecimalView};
use crate::protocol_defs::fix_messages::{
    FixExecutionReport, FixExecutionReportView, FixLogon, FixMessage, FixMessageBody,
    FixMessageBodyView, FixMessageView, FixNewOrderSingle, FixNewOrderSingleView,
};
use bytes::{Bytes, BytesMut};
use vstd::prelude::*;
use vstd::string::StringExecFns;
use vstd::utf8::*;

verus! {

/// Where a session stands.
#[derive(Debug, Clone, Copy, PartialEq, Eq)]
pub enum SessionState {
    /// No Logon has been answered yet.
    Pending,
    /// A Logon has been exchanged.
    Authenticated,
    /// The peer is gone: nothing is answered any more.
    Terminating,
}

/// The Logon that answers a Logon: no encryption, a heartbeat every 30
/// seconds, and no reset of the sequence numbers.
pub open spec fn logon_answer() -> FixLogon {
    FixLogon { encrypt_method: 0, heart_bt_int: 30, reset_seq_num_flag: Some(false) }
}

/// The report that accepts `order` at the time `now_ms`: the order's
/// identifier, symbol and side; the whole quantity left and nothing filled;
/// the time as order identifier, as transaction time and, behind `EID_`, as
/// execution identifier.
pub open spec fn acceptance_of(order: FixNewOrderSingleView, now_ms: u64) -> FixExecutionReportView {
    FixExecutionReportView {
        order_id: now_ms,
        cl_ord_id: Some(order.cl_ord_id),
        exec_id: "EID_"@ + ascii_text(digits(now_ms as nat)),
        ord_status: OrderStatus::New,
        symbol: order.symbol,
        side: order.side,
        leaves_qty: order.order_qty,
        cum_qty: DecimalView { mantissa: 0, scale: 0 },
        avg_px: DecimalView { mantissa: 0, scale: 0 },
        last_qty: None,
        last_px: None,
        transact_time: now_ms,
        text: Some("Order Accepted"@),
    }
}

/// The Logon that answers a Logon.
pub fn logon_reply() -> (reply: FixLogon)
    ensures
        reply == logon_answer(),
{
    FixLogon { encrypt_method: 0, heart_bt_int: 30, reset_seq_num_flag: Some(false) }
}

/// The report that accepts `order` at the time `now_ms`.
pub fn execution_report_for(order: &FixNewOrderSingle, now_ms: u64) -> (report: FixExecutionReport)
    ensures
        report@ == acceptance_of(order@, now_ms),
{
    let mut exec_id = "EID_".to_owned();
    let stamp = u64_to_string(now_ms);
    exec_id.append(stamp.as_str());
    FixExecutionReport {
        order_id: now_ms,
        cl_ord_id: Some(order.cl_ord_id.clone()),
        exec_id,
        ord_status: OrderStatus::New,
        symbol: order.symbol,
        side: order.side,
        leaves_qty: order.order_qty,
        cum_qty: Decimal::new(0, 0),
        avg_px: Decimal::new(0, 0),
        last_qty: None,
        last_px: None,
        transact_time: now_ms,
        text: Some("Order Accepted".to_owned()),
    }
}

/// What became of one chunk of inbound bytes.
#[derive(Debug, PartialEq)]
pub enum Handled {
    /// The chunk holds no complete message.
    Incomplete,
    /// A Logon was answered with a Logon.
    LogonAnswered,
    /// An order was accepted and answered with an execution report.
    OrderAccepted,
    /// A message of a kind that gets no answer; the text is its type.
    Unhandled(String),
    /// The message could not be decoded; it is dropped.
    Rejected(CodecError),
    /// The answer could not be encoded.
    ReplyFailed(CodecError),
    /// The session is terminating: the chunk was not looked at.
    Ignored,
}

/// What the caller is to do after one chunk: the bytes to send, if any, and
/// what became of the chunk.
#[derive(Debug, PartialEq)]
pub struct Processed {
    pub response: Option<Bytes>,
    pub handled: Handled,
}

/// The answer that a message calls for.
pub struct Answer {
    /// The fields of the answer's body.
    pub fields: Seq<WireField>,
    /// The message type of the answer.
    pub msg_type: Seq<char>,
    /// Whether the answer is to a Logon.
    pub to_logon: bool,
}

/// The answer that `message` calls for at the time `now_ms`: a Logon for a
/// Logon, an acceptance for a NewOrderSingle, and none for any other kind.
pub open spec fn answer_to(message: FixMessageView, now_ms: u64) -> Option<Answer> {
    match message.body {
        FixMessageBodyView::Logon(_) => Some(
            Answer { fields: logon_fields(logon_answer()), msg_type: "A"@, to_logon: true },
        ),
        FixMessageBodyView::NewOrderSingle(order) => Some(
            Answer {
                fields: execution_report_fields(acceptance_of(order, now_ms)),
                msg_type: "8"@,
                to_logon: false,
            },
        ),
        _ => None,
    }
}

/// The bytes of an answer to `message`: the answer's body under a header in
/// which the two parties of `message` have changed places.
pub open spec fn answer_bytes(
    answer: Answer,
    message: FixMessageView,
    msg_seq_num: u32,
    now_ms: u64,
) -> Seq<u8> {
    framed_message(
        fields_bytes(answer.fields),
        encode_utf8(answer.msg_type),
        encode_utf8(message.header.target_comp_id),
        encode_utf8(message.header.sender_comp_id),
        msg_seq_num,
        now_ms,
    )
}

/// The body length that an answer to `message` declares.
pub open spec fn answer_length(
    answer: Answer,
    message: FixMessageView,
    msg_seq_num: u32,
    now_ms: u64,
) -> nat {
    declared_length(
        fields_bytes(answer.fields),
        encode_utf8(answer.msg_type),
        encode_utf8(message.header.target_comp_id),
        encode_utf8(message.header.sender_comp_id),
        msg_seq_num,
        now_ms,
    )
}

/// One side of a connection: where the session stands and the number of the
/// next message it sends.
#[derive(Debug, Clone, Copy, PartialEq, Eq)]
pub struct Session {
    pub state: SessionState,
    pub next_seq_num: u32,
}

/// The number that follows `n`; after the largest comes 0.
pub open spec fn next_number(n: u32) -> u32 {
    if n == u32::MAX {
        0
    } else {
        (n + 1) as u32
    }
}

/// Whether `out` and `after` are what a session that stood at `before` has
/// to make of a decoding that gave `result`.
pub open spec fn processed_as(
    result: Result<Option<FixMessageView>, CodecErrorView>,
    before: Session,
    now_ms: u64,
    out: Processed,
    after: Session,
) -> bool {
    match result {
        Ok(None) => out.response is None && out.handled is Incomplete && after == before,
        Err(e) => {
            &&& out.response is None
            &&& out.handled matches Handled::Rejected(err)
            &&& err@ == e
            &&& after == before
        },
        Ok(Some(message)) => match answer_to(message, now_ms) {
            None => {
                &&& out.response is None
                &&& out.handled matches Handled::Unhandled(msg_type)
                &&& msg_type@ == message.header.msg_type
                &&& after == before
            },
            Some(answer) => if answer_length(answer, message, before.next_seq_num, now_ms)
                <= u32::MAX {
                &&& out.response matches Some(bytes)
                &&& frozen_bytes(bytes) == answer_bytes(
                    answer,
                    message,
                    before.next_seq_num,
                    now_ms,
                )
                &&& out.handled == if answer.to_logon {
                    Handled::LogonAnswered
                } else {
                    Handled::OrderAccepted
                }
                &&& after.next_seq_num == next_number(before.next_seq_num)
                &&& after.state == if answer.to_logon {
                    SessionState::Authenticated
                } else {
                    before.state
                }
            } else {
                &&& out.response is None
                &&& out.handled matches Handled::ReplyFailed(err)
                &&& err@ == CodecErrorView::InvalidFormat("Body too long"@)
                &&& after == before
            },
        },
    }
}

impl Session {
    /// A session before its first message: pending, and its first message
    /// will have the number 1.
    pub fn new() -> (session: Session)
        ensures
            session == (Session { state: SessionState::Pending, next_seq_num: 1 }),
    {
        Session { state: SessionState::Pending, next_seq_num: 1 }
    }

    /// Sends the answer `reply` to a message that came with `header_sender`
    /// and `header_target`, and counts it.
    fn answer<T: FixEncoder>(
        &mut self,
        reply: &T,
        header_sender: &str,
        header_target: &str,
        now_ms: u64,
        to_logon: bool,
    ) -> (out: Processed)
        requires
            reply.encodable(),
        ensures
            declared_length(
                reply.body_bytes(),
                encode_utf8(reply.type_text()),
                encode_utf8(header_target@),
                encode_utf8(header_sender@),
                old(self).next_seq_num,
                now_ms,
            ) <= u32::MAX ==> {
                &&& out.response matches Some(bytes)
                &&& frozen_bytes(bytes) == framed_message(
                    reply.body_bytes(),
                    encode_utf8(reply.type_text()),
                    encode_utf8(header_target@),
                    encode_utf8(header_sender@),
                    old(self).next_seq_num,
                    now_ms,
                )
                &&& out.handled == if to_logon {
                    Handled::LogonAnswered
                } else {
                    Handled::OrderAccepted
                }
                &&& final(self).next_seq_num == next_number(old(self).next_seq_num)
                &&& final(self).state == if to_logon {
                    SessionState::Authenticated
                } else {
                    old(self).state
                }
            },
            declared_length(
                reply.body_bytes(),
                encode_utf8(reply.type_text()),
                encode_utf8(header_target@),
                encode_utf8(header_sender@),
                old(self).next_seq_num,
                now_ms,
            ) > u32::MAX ==> {
                &&& out.response is None
                &&& out.handled matches Handled::ReplyFailed(err)
                &&& err@ == CodecErrorView::InvalidFormat("Body too long"@)
                &&& *final(self) == *old(self)
            },
    {
        match encode_fix_message(reply, header_target, header_sender, self.next_seq_num, now_ms) {
            Ok(bytes) => {
                self.next_seq_num = self.next_seq_num.wrapping_add(1);
                if to_logon {
                    self.state = SessionState::Authenticated;
                }
                Processed {
                    response: Some(bytes),
                    handled: if to_logon {
                        Handled::LogonAnswered
                    } else {
                        Handled::OrderAccepted
                    },
                }
            },
            Err(e) => Processed { response: None, handled: Handled::ReplyFailed(e) },
        }
    }

    /// Handles one chunk of inbound bytes at the time `now_ms`: decodes the
    /// first message of `data`, which advances `data` past it, and answers a
    /// Logon with a Logon and a NewOrderSingle with an acceptance, with the
    /// two parties of the message in each other's place. A session that is
    /// terminating leaves the chunk alone.
    pub fn process(&mut self, data: &mut BytesMut, now_ms: u64) -> (out: Processed)
        ensures
            old(self).state is Terminating ==> {
                &&& out.response is None
                &&& out.handled is Ignored
                &&& *final(self) == *old(self)
                &&& buffer_bytes(*final(data)) == buffer_bytes(*old(data))
            },
            !(old(self).state is Terminating) ==> {
                &&& buffer_bytes(*final(data)) == buffer_bytes(*old(data)).subrange(
                    decoded(buffer_bytes(*old(data))).0,
                    buffer_bytes(*old(data)).len() as int,
                )
                &&& processed_as(
                    decoded(buffer_bytes(*old(data))).1,
                    *old(self),
                    now_ms,
                    out,
                    *final(self),
                )
            },
    {
        match self.state {
            SessionState::Terminating => {
                return Processed { response: None, handled: Handled::Ignored };
            },
            _ => {},
        }
        match decode_fix_message(data) {
            Ok(None) => Processed { response: None, handled: Handled::Incomplete },
            Err(e) => Processed { response: None, handled: Handled::Rejected(e) },
            Ok(Some(message)) => {
                let FixMessage { header, body } = message;
                match body {
                    FixMessageBody::Logon(_) => {
                        let reply = logon_reply();
                        self.answer(
                            &reply,
                            header.sender_comp_id.as_str(),
                            header.target_comp_id.as_str(),
                            now_ms,
                            true,
                        )
                    },
                    FixMessageBody::NewOrderSingle(order) => {
                        let reply = execution_report_for(&order, now_ms);
                        self.answer(
                            &reply,
                            header.sender_comp_id.as_str(),
                            header.target_comp_id.as_str(),
                            now_ms,
                            false,
                        )
                    },
                    _ => Processed { response: None, handled: Handled::Unhandled(header.msg_type) },
                }
            },
        }
    }

    /// Notes that the peer is gone: the session answers nothing from now on.
    pub fn disconnect(&mut self)
        ensures
            *final(self) == (Session { state: SessionState::Terminating, ..*old(self) }),
    {
        self.state = SessionState::Terminating;
    }
}

} // verus!
