//! Encoding typed messages into framed bytes, and decoding framed bytes back.

use super::body_fields::{
    execution_closing_fields, execution_identity_fields, execution_instrument_fields,
    execution_quantity_fields, execution_report_fields, flag_byte, logon_fields,
    new_order_single_fields, ord_type_byte, side_byte, status_byte, tif_byte,
};
use super::body_parse::{
    body_of_fields, execution_report_of_fields, field_byte, header_of_fields, logon_of_fields,
    message_of_frame, new_order_single_of_fields, ord_type_field, required, side_field,
    status_field, symbol_field, tif_field, unknown_value,
};
use super::bytes_buf::{buffer_bytes, buffer_slice, frozen_bytes};
use super::field_map::{field_decimal, field_str, field_u32, field_u64, lookup, with_error_view};
use super::framing::{
    begin_string, checksum_digits, counted_header_fields, declared_length, frame_of,
    framed_message, header_fields, locate_frame, verify_checksum, TRAILER_LEN,
};
use super::wire::{
    append_tag_char, append_tag_u32, append_tag_u64, append_tag_value, digits, field_bytes,
    fields_bytes, lemma_fields_bytes_concat, WireField,
};
use crate::common_types::{OrderStatus, OrderType, Side, Symbol, TimeInForce};
use crate::decimal::{Decimal, DecimalView};
use crate::protocol_defs::fix_messages::{
    FixExecutionReport, FixExecutionReportView, FixHeader, FixHeaderView, FixLogon, FixMessage,
    FixMessageBody, FixMessageBodyView, FixMessageView, FixNewOrderSingle, FixNewOrderSingleView,
};
use bytes::{Bytes, BytesMut};
use vstd::prelude::*;
use vstd::string::StringSliceAdditionalSpecFns;
use vstd::utf8::*;

pub use super::buffer_pool::FixBufferPool;
pub use super::error::{CodecError, CodecErrorView};
pub use super::field_map::FixFieldMap;
pub use super::wire::calculate_checksum;

verus! {

/// A message body that can be written in wire form.
pub trait FixEncoder {
    /// The bytes of the body on the wire.
    spec fn body_bytes(&self) -> Seq<u8>;

    /// The text of the message type, the value of tag 35.
    spec fn type_text(&self) -> Seq<char>;

    /// Whether the body can be written at all.
    spec fn encodable(&self) -> bool;

    /// Appends the body to `body_buf`.
    fn encode_body(&self, body_buf: &mut BytesMut) -> (r: Result<(), CodecError>)
        ensures
            r is Ok <==> self.encodable(),
            r is Ok ==> buffer_bytes(*final(body_buf)) == buffer_bytes(*old(body_buf))
                + self.body_bytes(),
    ;

    /// The message type, the value of tag 35.
    fn msg_type(&self) -> (t: &str)
        ensures
            t@ == self.type_text(),
    ;
}

/// A buffer that held `base` and the fields `done`, and then got one more
/// field, holds `base` and the longer list.
proof fn lemma_field_appended(base: Seq<u8>, done: Seq<WireField>, f: WireField, now: Seq<u8>)
    requires
        now == base + fields_bytes(done) + field_bytes(f.tag as nat, f.value),
    ensures
        now == base + fields_bytes(done.push(f)),
{
    assert(done.push(f).drop_last() =~= done);
    assert(now =~= base + fields_bytes(done.push(f)));
}

/// The byte that stands for `side`.
pub fn side_to_byte(side: Side) -> (b: u8)
    ensures
        b == side_byte(side),
{
    match side {
        Side::Buy => 49,
        Side::Sell => 50,
    }
}

/// The byte that stands for `ord_type`.
pub fn ord_type_to_byte(ord_type: OrderType) -> (b: u8)
    ensures
        b == ord_type_byte(ord_type),
{
    match ord_type {
        OrderType::Market => 49,
        OrderType::Limit => 50,
    }
}

/// The byte that stands for `tif`.
pub fn tif_to_byte(tif: TimeInForce) -> (b: u8)
    ensures
        b == tif_byte(tif),
{
    match tif {
        TimeInForce::Day => 48,
        TimeInForce::GTC => 49,
        TimeInForce::IOC => 51,
        TimeInForce::FOK => 52,
        TimeInForce::GTD => 54,
    }
}

/// The byte that stands for `status`.
pub fn status_to_byte(status: OrderStatus) -> (b: u8)
    ensures
        b == status_byte(status),
{
    match status {
        OrderStatus::New => 48,
        OrderStatus::PartiallyFilled => 49,
        OrderStatus::Filled => 50,
        OrderStatus::Cancelled => 52,
        OrderStatus::PendingReplace => 53,
        OrderStatus::PendingCancel => 54,
        OrderStatus::Rejected => 56,
        OrderStatus::Expired => 67,
    }
}

/// Appends a field whose value is the text of `value`.
pub fn append_tag_decimal(buf: &mut BytesMut, tag: u32, value: &Decimal)
    ensures
        buffer_bytes(*final(buf)) == buffer_bytes(*old(buf)) + field_bytes(
            tag as nat,
            encode_utf8(value@.text()),
        ),
{
    let text = value.to_text();
    append_tag_value(buf, tag, text.as_str().as_bytes());
}

impl FixEncoder for FixLogon {
    open spec fn body_bytes(&self) -> Seq<u8> {
        fields_bytes(logon_fields(*self))
    }

    open spec fn type_text(&self) -> Seq<char> {
        "A"@
    }

    open spec fn encodable(&self) -> bool {
        true
    }

    fn encode_body(&self, body_buf: &mut BytesMut) -> (r: Result<(), CodecError>)
        ensures
            r is Ok,
    {
        let ghost base = buffer_bytes(*body_buf);
        let ghost mut done: Seq<WireField> = Seq::empty();
        assert(base + fields_bytes(done) =~= base);

        append_tag_u32(body_buf, 98, self.encrypt_method);
        proof {
            let f = WireField { tag: 98, value: digits(self.encrypt_method as nat) };
            lemma_field_appended(base, done, f, buffer_bytes(*body_buf));
            done = done.push(f);
        }
        append_tag_u32(body_buf, 108, self.heart_bt_int);
        proof {
            let f = WireField { tag: 108, value: digits(self.heart_bt_int as nat) };
            lemma_field_appended(base, done, f, buffer_bytes(*body_buf));
            done = done.push(f);
        }
        if let Some(reset_flag) = self.reset_seq_num_flag {
            append_tag_char(
                body_buf,
                141,
                if reset_flag {
                    89
                } else {
                    78
                },
            );
            proof {
                let f = WireField { tag: 141, value: seq![flag_byte(reset_flag)] };
                lemma_field_appended(base, done, f, buffer_bytes(*body_buf));
                done = done.push(f);
            }
        }
        proof {
            assert(done =~= logon_fields(*self));
        }
        Ok(())
    }

    fn msg_type(&self) -> (t: &str) {
        "A"
    }
}

impl FixEncoder for FixNewOrderSingle {
    open spec fn body_bytes(&self) -> Seq<u8> {
        fields_bytes(new_order_single_fields(self@))
    }

    open spec fn type_text(&self) -> Seq<char> {
        "D"@
    }

    open spec fn encodable(&self) -> bool {
        true
    }

    fn encode_body(&self, body_buf: &mut BytesMut) -> (r: Result<(), CodecError>)
        ensures
            r is Ok,
    {
        let ghost base = buffer_bytes(*body_buf);
        let ghost mut done: Seq<WireField> = Seq::empty();
        assert(base + fields_bytes(done) =~= base);

        append_tag_value(body_buf, 11, self.cl_ord_id.as_str().as_bytes());
        proof {
            let f = WireField { tag: 11, value: encode_utf8(self.cl_ord_id@) };
            lemma_field_appended(base, done, f, buffer_bytes(*body_buf));
            done = done.push(f);
        }
        append_tag_value(body_buf, 55, self.symbol.as_str().as_bytes());
        proof {
            let f = WireField { tag: 55, value: self.symbol.text_bytes() };
            lemma_field_appended(base, done, f, buffer_bytes(*body_buf));
            done = done.push(f);
        }
        append_tag_char(body_buf, 54, side_to_byte(self.side));
        proof {
            let f = WireField { tag: 54, value: seq![side_byte(self.side)] };
            lemma_field_appended(base, done, f, buffer_bytes(*body_buf));
            done = done.push(f);
        }
        append_tag_u64(body_buf, 60, self.transact_time);
        proof {
            let f = WireField { tag: 60, value: digits(self.transact_time as nat) };
            lemma_field_appended(base, done, f, buffer_bytes(*body_buf));
            done = done.push(f);
        }
        append_tag_decimal(body_buf, 38, &self.order_qty);
        proof {
            let f = WireField { tag: 38, value: encode_utf8(self.order_qty@.text()) };
            lemma_field_appended(base, done, f, buffer_bytes(*body_buf));
            done = done.push(f);
        }
        append_tag_char(body_buf, 40, ord_type_to_byte(self.ord_type));
        proof {
            let f = WireField { tag: 40, value: seq![ord_type_byte(self.ord_type)] };
            lemma_field_appended(base, done, f, buffer_bytes(*body_buf));
            done = done.push(f);
        }
        if let Some(price) = &self.price {
            append_tag_decimal(body_buf, 44, price);
            proof {
                let f = WireField { tag: 44, value: encode_utf8(price@.text()) };
                lemma_field_appended(base, done, f, buffer_bytes(*body_buf));
                done = done.push(f);
            }
        }
        if let Some(tif) = self.tif {
            append_tag_char(body_buf, 59, tif_to_byte(tif));
            proof {
                let f = WireField { tag: 59, value: seq![tif_byte(tif)] };
                lemma_field_appended(base, done, f, buffer_bytes(*body_buf));
                done = done.push(f);
            }
        }
        proof {
            assert(done =~= new_order_single_fields(self@));
        }
        Ok(())
    }

    fn msg_type(&self) -> (t: &str) {
        "D"
    }
}

/// Appends the fields that identify an execution.
fn encode_execution_identity(m: &FixExecutionReport, body_buf: &mut BytesMut)
    ensures
        buffer_bytes(*final(body_buf)) == buffer_bytes(*old(body_buf)) + fields_bytes(
            execution_identity_fields(m@),
        ),
{
    let ghost base = buffer_bytes(*body_buf);
    let ghost mut done: Seq<WireField> = Seq::empty();
    assert(base + fields_bytes(done) =~= base);

    append_tag_u64(body_buf, 37, m.order_id);
    proof {
        let f = WireField { tag: 37, value: digits(m.order_id as nat) };
        lemma_field_appended(base, done, f, buffer_bytes(*body_buf));
        done = done.push(f);
    }
    if let Some(cl_ord_id) = &m.cl_ord_id {
        append_tag_value(body_buf, 11, cl_ord_id.as_str().as_bytes());
        proof {
            let f = WireField { tag: 11, value: encode_utf8(cl_ord_id@) };
            lemma_field_appended(base, done, f, buffer_bytes(*body_buf));
            done = done.push(f);
        }
    }
    append_tag_value(body_buf, 17, m.exec_id.as_str().as_bytes());
    proof {
        let f = WireField { tag: 17, value: encode_utf8(m.exec_id@) };
        lemma_field_appended(base, done, f, buffer_bytes(*body_buf));
        done = done.push(f);
    }
    append_tag_char(body_buf, 39, status_to_byte(m.ord_status));
    proof {
        let f = WireField { tag: 39, value: seq![status_byte(m.ord_status)] };
        lemma_field_appended(base, done, f, buffer_bytes(*body_buf));
        done = done.push(f);
        assert(done =~= execution_identity_fields(m@));
    }
}

/// Appends the fields that name what was traded.
fn encode_execution_instrument(m: &FixExecutionReport, body_buf: &mut BytesMut)
    ensures
        buffer_bytes(*final(body_buf)) == buffer_bytes(*old(body_buf)) + fields_bytes(
            execution_instrument_fields(m@),
        ),
{
    let ghost base = buffer_bytes(*body_buf);
    let ghost mut done: Seq<WireField> = Seq::empty();
    assert(base + fields_bytes(done) =~= base);

    append_tag_value(body_buf, 55, m.symbol.as_str().as_bytes());
    proof {
        let f = WireField { tag: 55, value: m.symbol.text_bytes() };
        lemma_field_appended(base, done, f, buffer_bytes(*body_buf));
        done = done.push(f);
    }
    append_tag_char(body_buf, 54, side_to_byte(m.side));
    proof {
        let f = WireField { tag: 54, value: seq![side_byte(m.side)] };
        lemma_field_appended(base, done, f, buffer_bytes(*body_buf));
        done = done.push(f);
        assert(done =~= execution_instrument_fields(m@));
    }
}

/// Appends the quantities and prices of an execution.
fn encode_execution_quantities(m: &FixExecutionReport, body_buf: &mut BytesMut)
    ensures
        buffer_bytes(*final(body_buf)) == buffer_bytes(*old(body_buf)) + fields_bytes(
            execution_quantity_fields(m@),
        ),
{
    let ghost base = buffer_bytes(*body_buf);
    let ghost mut done: Seq<WireField> = Seq::empty();
    assert(base + fields_bytes(done) =~= base);

    append_tag_decimal(body_buf, 151, &m.leaves_qty);
    proof {
        let f = WireField { tag: 151, value: encode_utf8(m.leaves_qty@.text()) };
        lemma_field_appended(base, done, f, buffer_bytes(*body_buf));
        done = done.push(f);
    }
    append_tag_decimal(body_buf, 14, &m.cum_qty);
    proof {
        let f = WireField { tag: 14, value: encode_utf8(m.cum_qty@.text()) };
        lemma_field_appended(base, done, f, buffer_bytes(*body_buf));
        done = done.push(f);
    }
    append_tag_decimal(body_buf, 6, &m.avg_px);
    proof {
        let f = WireField { tag: 6, value: encode_utf8(m.avg_px@.text()) };
        lemma_field_appended(base, done, f, buffer_bytes(*body_buf));
        done = done.push(f);
    }
    if let Some(last_qty) = &m.last_qty {
        append_tag_decimal(body_buf, 32, last_qty);
        proof {
            let f = WireField { tag: 32, value: encode_utf8(last_qty@.text()) };
            lemma_field_appended(base, done, f, buffer_bytes(*body_buf));
            done = done.push(f);
        }
    }
    if let Some(last_px) = &m.last_px {
        append_tag_decimal(body_buf, 31, last_px);
        proof {
            let f = WireField { tag: 31, value: encode_utf8(last_px@.text()) };
            lemma_field_appended(base, done, f, buffer_bytes(*body_buf));
            done = done.push(f);
        }
    }
    proof {
        assert(done =~= execution_quantity_fields(m@));
    }
}

/// Appends the fields that close an execution report.
fn encode_execution_closing(m: &FixExecutionReport, body_buf: &mut BytesMut)
    ensures
        buffer_bytes(*final(body_buf)) == buffer_bytes(*old(body_buf)) + fields_bytes(
            execution_closing_fields(m@),
        ),
{
    let ghost base = buffer_bytes(*body_buf);
    let ghost mut done: Seq<WireField> = Seq::empty();
    assert(base + fields_bytes(done) =~= base);

    append_tag_u64(body_buf, 60, m.transact_time);
    proof {
        let f = WireField { tag: 60, value: digits(m.transact_time as nat) };
        lemma_field_appended(base, done, f, buffer_bytes(*body_buf));
        done = done.push(f);
    }
    if let Some(text) = &m.text {
        append_tag_value(body_buf, 58, text.as_str().as_bytes());
        proof {
            let f = WireField { tag: 58, value: encode_utf8(text@) };
            lemma_field_appended(base, done, f, buffer_bytes(*body_buf));
            done = done.push(f);
        }
    }
    proof {
        assert(done =~= execution_closing_fields(m@));
    }
}

impl FixEncoder for FixExecutionReport {
    open spec fn body_bytes(&self) -> Seq<u8> {
        fields_bytes(execution_report_fields(self@))
    }

    open spec fn type_text(&self) -> Seq<char> {
        "8"@
    }

    open spec fn encodable(&self) -> bool {
        true
    }

    fn encode_body(&self, body_buf: &mut BytesMut) -> (r: Result<(), CodecError>)
        ensures
            r is Ok,
    {
        encode_execution_identity(self, body_buf);
        encode_execution_instrument(self, body_buf);
        encode_execution_quantities(self, body_buf);
        encode_execution_closing(self, body_buf);
        proof {
            let m = self@;
            let a = execution_identity_fields(m);
            let b = execution_instrument_fields(m);
            let c = execution_quantity_fields(m);
            let d = execution_closing_fields(m);
            lemma_fields_bytes_concat(a, b);
            lemma_fields_bytes_concat(a + b, c);
            lemma_fields_bytes_concat(a + b + c, d);
            assert(buffer_bytes(*body_buf) =~= buffer_bytes(*old(body_buf)) + fields_bytes(
                a + b + c + d,
            ));
        }
        Ok(())
    }

    fn msg_type(&self) -> (t: &str) {
        "8"
    }
}

/// The message that `body` makes with the given header values: its bytes
/// on the wire.
pub open spec fn encoded_message<T: FixEncoder>(
    body: &T,
    sender: Seq<char>,
    target: Seq<char>,
    msg_seq_num: u32,
    sending_time: u64,
) -> Seq<u8> {
    framed_message(
        body.body_bytes(),
        encode_utf8(body.type_text()),
        encode_utf8(sender),
        encode_utf8(target),
        msg_seq_num,
        sending_time,
    )
}

/// The body length that the message declares which `body` makes with the
/// given header values.
pub open spec fn encoded_body_length<T: FixEncoder>(
    body: &T,
    sender: Seq<char>,
    target: Seq<char>,
    msg_seq_num: u32,
    sending_time: u64,
) -> nat {
    declared_length(
        body.body_bytes(),
        encode_utf8(body.type_text()),
        encode_utf8(sender),
        encode_utf8(target),
        msg_seq_num,
        sending_time,
    )
}

/// Frames a body that is already in wire form: writes tag 8, then tag 9
/// with the number of bytes that follow it up to the trailer, then the rest
/// of the header and the body, then the checksum of all of that in tag 10.
/// A message whose body length is beyond 32 bits is refused.
pub fn frame_message(
    body: &[u8],
    msg_type: &str,
    sender_comp_id: &str,
    target_comp_id: &str,
    msg_seq_num: u32,
    sending_time: u64,
) -> (r: Result<Bytes, CodecError>)
    ensures
        match r {
            Ok(bytes) => declared_length(
                body@,
                msg_type.spec_bytes(),
                sender_comp_id.spec_bytes(),
                target_comp_id.spec_bytes(),
                msg_seq_num,
                sending_time,
            ) <= u32::MAX && frozen_bytes(bytes) == framed_message(
                body@,
                msg_type.spec_bytes(),
                sender_comp_id.spec_bytes(),
                target_comp_id.spec_bytes(),
                msg_seq_num,
                sending_time,
            ),
            Err(e) => declared_length(
                body@,
                msg_type.spec_bytes(),
                sender_comp_id.spec_bytes(),
                target_comp_id.spec_bytes(),
                msg_seq_num,
                sending_time,
            ) > u32::MAX && e@ == CodecErrorView::InvalidFormat("Body too long"@),
        },
{
    let ghost counted_fields = counted_header_fields(
        msg_type.spec_bytes(),
        sender_comp_id.spec_bytes(),
        target_comp_id.spec_bytes(),
        msg_seq_num,
        sending_time,
    );
    let mut counted = BytesMut::with_capacity(128);
    let ghost base = Seq::<u8>::empty();
    let ghost mut done: Seq<WireField> = Seq::empty();
    assert(buffer_bytes(counted) =~= base + fields_bytes(done));

    append_tag_value(&mut counted, 35, msg_type.as_bytes());
    proof {
        lemma_field_appended(base, done, counted_fields[0], buffer_bytes(counted));
        done = done.push(counted_fields[0]);
    }
    append_tag_value(&mut counted, 49, sender_comp_id.as_bytes());
    proof {
        lemma_field_appended(base, done, counted_fields[1], buffer_bytes(counted));
        done = done.push(counted_fields[1]);
    }
    append_tag_value(&mut counted, 56, target_comp_id.as_bytes());
    proof {
        lemma_field_appended(base, done, counted_fields[2], buffer_bytes(counted));
        done = done.push(counted_fields[2]);
    }
    append_tag_u32(&mut counted, 34, msg_seq_num);
    proof {
        lemma_field_appended(base, done, counted_fields[3], buffer_bytes(counted));
        done = done.push(counted_fields[3]);
    }
    append_tag_u64(&mut counted, 52, sending_time);
    proof {
        lemma_field_appended(base, done, counted_fields[4], buffer_bytes(counted));
        done = done.push(counted_fields[4]);
        assert(done =~= counted_fields);
        assert(buffer_bytes(counted) =~= fields_bytes(counted_fields));
    }
    counted.extend_from_slice(body);
    let counted_bytes = buffer_slice(&counted);
    if counted_bytes.len() as u64 > u32::MAX as u64 {
        return Err(CodecError::InvalidFormat("Body too long".to_owned()));
    }
    let ghost fields = header_fields(
        counted_bytes@.len(),
        msg_type.spec_bytes(),
        sender_comp_id.spec_bytes(),
        target_comp_id.spec_bytes(),
        msg_seq_num,
        sending_time,
    );
    let ghost leading = seq![fields[0], fields[1]];

    let mut msg = BytesMut::with_capacity(128);
    proof {
        done = Seq::empty();
        assert(buffer_bytes(msg) =~= base + fields_bytes(done));
    }
    let begin: [u8; 7] = [70, 73, 88, 46, 52, 46, 50];
    append_tag_value(&mut msg, 8, begin.as_slice());
    proof {
        assert(begin@ =~= begin_string());
        lemma_field_appended(base, done, fields[0], buffer_bytes(msg));
        done = done.push(fields[0]);
    }
    append_tag_u32(&mut msg, 9, counted_bytes.len() as u32);
    proof {
        lemma_field_appended(base, done, fields[1], buffer_bytes(msg));
        done = done.push(fields[1]);
        assert(done =~= leading);
        assert(fields =~= leading + counted_fields);
        lemma_fields_bytes_concat(leading, counted_fields);
    }
    msg.extend_from_slice(counted_bytes);
    proof {
        assert(buffer_bytes(msg) =~= fields_bytes(fields) + body@);
    }
    let checksum = calculate_checksum(buffer_slice(&msg));
    let checksum_text: [u8; 3] = [
        48 + (checksum / 100) % 10,
        48 + (checksum / 10) % 10,
        48 + checksum % 10,
    ];
    proof {
        assert(checksum_text@ =~= checksum_digits(checksum as int));
    }
    append_tag_value(&mut msg, 10, checksum_text.as_slice());
    Ok(msg.freeze())
}

/// Encodes a typed body and the given header values into one framed message:
/// the body is rendered first, then the header with the body length, then
/// both are summed into the checksum trailer.
pub fn encode_fix_message<T: FixEncoder>(
    msg_body: &T,
    sender_comp_id: &str,
    target_comp_id: &str,
    msg_seq_num: u32,
    sending_time: u64,
) -> (r: Result<Bytes, CodecError>)
    ensures
        match r {
            Ok(bytes) => msg_body.encodable() && encoded_body_length(
                msg_body,
                sender_comp_id@,
                target_comp_id@,
                msg_seq_num,
                sending_time,
            ) <= u32::MAX && frozen_bytes(bytes) == encoded_message(
                msg_body,
                sender_comp_id@,
                target_comp_id@,
                msg_seq_num,
                sending_time,
            ),
            Err(e) => !msg_body.encodable() || (encoded_body_length(
                msg_body,
                sender_comp_id@,
                target_comp_id@,
                msg_seq_num,
                sending_time,
            ) > u32::MAX && e@ == CodecErrorView::InvalidFormat("Body too long"@)),
        },
{
    let mut body_buf = BytesMut::with_capacity(256);
    match msg_body.encode_body(&mut body_buf) {
        Ok(()) => {},
        Err(e) => {
            return Err(e);
        },
    }
    proof {
        assert(buffer_bytes(body_buf) =~= msg_body.body_bytes());
    }
    frame_message(
        buffer_slice(&body_buf),
        msg_body.msg_type(),
        sender_comp_id,
        target_comp_id,
        msg_seq_num,
        sending_time,
    )
}

/// A message body that can be read from the fields of a message.
pub trait FixMessageBodyDecoder: Sized {
    /// Whether `r` is what reading `fields` has to give: the body they hold,
    /// or the error of their first defect.
    spec fn decodes(fields: Seq<WireField>, r: Result<Self, CodecError>) -> bool;

    /// Reads the body from `fields`.
    fn decode_body(fields: &FixFieldMap) -> (r: Result<Self, CodecError>)
        ensures
            Self::decodes(fields.fields(), r),
    ;
}

/// The text field `tag`, which must be there.
fn require_str(fields: &FixFieldMap, tag: u32) -> (r: Result<String, CodecError>)
    ensures
        match r {
            Ok(text) => required(field_str(fields.fields(), tag), tag) == Ok::<
                Seq<char>,
                CodecErrorView,
            >(text@),
            Err(e) => required(field_str(fields.fields(), tag), tag) == Err::<
                Seq<char>,
                CodecErrorView,
            >(e@),
        },
{
    match fields.get_field_str(tag) {
        Ok(Some(text)) => Ok(text),
        Ok(None) => Err(CodecError::MissingField(tag)),
        Err(e) => Err(e),
    }
}

/// The 32-bit number in field `tag`, which must be there.
fn require_u32(fields: &FixFieldMap, tag: u32) -> (r: Result<u32, CodecError>)
    ensures
        with_error_view(r) == required(field_u32(fields.fields(), tag), tag),
{
    match fields.get_field_u32(tag) {
        Ok(Some(value)) => Ok(value),
        Ok(None) => Err(CodecError::MissingField(tag)),
        Err(e) => Err(e),
    }
}

/// The 64-bit number in field `tag`, which must be there.
fn require_u64(fields: &FixFieldMap, tag: u32) -> (r: Result<u64, CodecError>)
    ensures
        with_error_view(r) == required(field_u64(fields.fields(), tag), tag),
{
    match fields.get_field_u64(tag) {
        Ok(Some(value)) => Ok(value),
        Ok(None) => Err(CodecError::MissingField(tag)),
        Err(e) => Err(e),
    }
}

/// The decimal number in field `tag`, which must be there.
fn require_decimal(fields: &FixFieldMap, tag: u32) -> (r: Result<Decimal, CodecError>)
    ensures
        match r {
            Ok(d) => required(field_decimal(fields.fields(), tag), tag) == Ok::<
                DecimalView,
                CodecErrorView,
            >(d@),
            Err(e) => required(field_decimal(fields.fields(), tag), tag) == Err::<
                DecimalView,
                CodecErrorView,
            >(e@),
        },
{
    match fields.get_field_decimal(tag) {
        Ok(Some(d)) => Ok(d),
        Ok(None) => Err(CodecError::MissingField(tag)),
        Err(e) => Err(e),
    }
}

/// The single byte of field `tag`, where the field is there.
fn get_field_byte(fields: &FixFieldMap, tag: u32, length_error: &str) -> (r: Result<
    Option<u8>,
    CodecError,
>)
    ensures
        with_error_view(r) == field_byte(fields.fields(), tag, length_error@),
{
    match fields.get_field_bytes(tag) {
        Some(bytes) => {
            if bytes.len() != 1 {
                Err(CodecError::InvalidValue { tag, value: length_error.to_owned() })
            } else {
                Ok(Some(bytes[0]))
            }
        },
        None => Ok(None),
    }
}

/// The single byte of field `tag`, which must be there.
fn require_byte(fields: &FixFieldMap, tag: u32, length_error: &str) -> (r: Result<u8, CodecError>)
    ensures
        with_error_view(r) == required(field_byte(fields.fields(), tag, length_error@), tag),
{
    match get_field_byte(fields, tag, length_error) {
        Ok(Some(byte)) => Ok(byte),
        Ok(None) => Err(CodecError::MissingField(tag)),
        Err(e) => Err(e),
    }
}

/// The error for a byte that stands for no value of field `tag`.
fn unknown_value_error(tag: u32, prefix: &str, byte: u8) -> (e: CodecError)
    ensures
        e@ == unknown_value(tag, prefix@, byte),
{
    let mut value = prefix.to_owned();
    value.push(byte as char);
    value.push('\'');
    CodecError::InvalidValue { tag, value }
}

/// The side in tag 54.
fn decode_side(fields: &FixFieldMap) -> (r: Result<Side, CodecError>)
    ensures
        with_error_view(r) == side_field(fields.fields()),
{
    let byte = require_byte(fields, 54, "Invalid side value length")?;
    if byte == 49 {
        Ok(Side::Buy)
    } else if byte == 50 {
        Ok(Side::Sell)
    } else {
        Err(unknown_value_error(54, "Unknown side '", byte))
    }
}

/// The order type in tag 40.
fn decode_ord_type(fields: &FixFieldMap) -> (r: Result<OrderType, CodecError>)
    ensures
        with_error_view(r) == ord_type_field(fields.fields()),
{
    let byte = require_byte(fields, 40, "Invalid order type value length")?;
    if byte == 49 {
        Ok(OrderType::Market)
    } else if byte == 50 {
        Ok(OrderType::Limit)
    } else {
        Err(unknown_value_error(40, "Unknown order type '", byte))
    }
}

/// The order status in tag 39.
fn decode_status(fields: &FixFieldMap) -> (r: Result<OrderStatus, CodecError>)
    ensures
        with_error_view(r) == status_field(fields.fields()),
{
    let byte = require_byte(fields, 39, "Invalid order status value length")?;
    if byte == 48 {
        Ok(OrderStatus::New)
    } else if byte == 49 {
        Ok(OrderStatus::PartiallyFilled)
    } else if byte == 50 {
        Ok(OrderStatus::Filled)
    } else if byte == 52 {
        Ok(OrderStatus::Cancelled)
    } else if byte == 53 {
        Ok(OrderStatus::PendingReplace)
    } else if byte == 54 {
        Ok(OrderStatus::PendingCancel)
    } else if byte == 56 {
        Ok(OrderStatus::Rejected)
    } else if byte == 67 {
        Ok(OrderStatus::Expired)
    } else {
        Err(unknown_value_error(39, "Unknown order status '", byte))
    }
}

/// The time in force in tag 59, where there is one.
fn decode_tif(fields: &FixFieldMap) -> (r: Result<Option<TimeInForce>, CodecError>)
    ensures
        with_error_view(r) == tif_field(fields.fields()),
{
    match get_field_byte(fields, 59, "Invalid TIF value length")? {
        None => Ok(None),
        Some(byte) => {
            if byte == 48 {
                Ok(Some(TimeInForce::Day))
            } else if byte == 49 {
                Ok(Some(TimeInForce::GTC))
            } else if byte == 51 {
                Ok(Some(TimeInForce::IOC))
            } else if byte == 52 {
                Ok(Some(TimeInForce::FOK))
            } else if byte == 54 {
                Ok(Some(TimeInForce::GTD))
            } else {
                Err(unknown_value_error(59, "Unknown TIF '", byte))
            }
        },
    }
}

/// The symbol in tag 55.
fn decode_symbol(fields: &FixFieldMap) -> (r: Result<Symbol, CodecError>)
    ensures
        match r {
            Ok(symbol) => symbol_field(fields.fields()) == Ok::<Seq<u8>, CodecErrorView>(
                symbol.0@,
            ),
            Err(e) => symbol_field(fields.fields()) == Err::<Seq<u8>, CodecErrorView>(e@),
        },
{
    let text = require_str(fields, 55)?;
    Ok(Symbol::new(text.as_str()))
}

impl FixMessageBodyDecoder for FixLogon {
    open spec fn decodes(fields: Seq<WireField>, r: Result<Self, CodecError>) -> bool {
        with_error_view(r) == logon_of_fields(fields)
    }

    fn decode_body(fields: &FixFieldMap) -> (r: Result<Self, CodecError>) {
        let encrypt_method = require_u32(fields, 98)?;
        let heart_bt_int = require_u32(fields, 108)?;
        let reset_seq_num_flag = match get_field_byte(fields, 141, "Invalid flag value length")? {
            Some(byte) => Some(byte == 89),
            None => None,
        };
        Ok(FixLogon { encrypt_method, heart_bt_int, reset_seq_num_flag })
    }
}

/// A decoded NewOrderSingle, or the error, by their views.
pub open spec fn new_order_single_result_view(r: Result<FixNewOrderSingle, CodecError>) -> Result<
    FixNewOrderSingleView,
    CodecErrorView,
> {
    match r {
        Ok(m) => Ok(m@),
        Err(e) => Err(e@),
    }
}

/// A decoded ExecutionReport, or the error, by their views.
pub open spec fn execution_report_result_view(r: Result<FixExecutionReport, CodecError>) -> Result<
    FixExecutionReportView,
    CodecErrorView,
> {
    match r {
        Ok(m) => Ok(m@),
        Err(e) => Err(e@),
    }
}

impl FixMessageBodyDecoder for FixNewOrderSingle {
    open spec fn decodes(fields: Seq<WireField>, r: Result<Self, CodecError>) -> bool {
        new_order_single_result_view(r) == new_order_single_of_fields(fields)
    }

    fn decode_body(fields: &FixFieldMap) -> (r: Result<Self, CodecError>) {
        let cl_ord_id = require_str(fields, 11)?;
        let symbol = decode_symbol(fields)?;
        let side = decode_side(fields)?;
        let transact_time = require_u64(fields, 60)?;
        let order_qty = require_decimal(fields, 38)?;
        let ord_type = decode_ord_type(fields)?;
        let price = fields.get_field_decimal(44)?;
        let tif = decode_tif(fields)?;
        Ok(
            FixNewOrderSingle {
                cl_ord_id,
                symbol,
                side,
                transact_time,
                order_qty,
                ord_type,
                price,
                tif,
            },
        )
    }
}

impl FixMessageBodyDecoder for FixExecutionReport {
    open spec fn decodes(fields: Seq<WireField>, r: Result<Self, CodecError>) -> bool {
        execution_report_result_view(r) == execution_report_of_fields(fields)
    }

    fn decode_body(fields: &FixFieldMap) -> (r: Result<Self, CodecError>) {
        let order_id = require_u64(fields, 37)?;
        let cl_ord_id = fields.get_field_str(11)?;
        let exec_id = require_str(fields, 17)?;
        let ord_status = decode_status(fields)?;
        let symbol = decode_symbol(fields)?;
        let side = decode_side(fields)?;
        let leaves_qty = require_decimal(fields, 151)?;
        let cum_qty = require_decimal(fields, 14)?;
        let avg_px = require_decimal(fields, 6)?;
        let last_qty = fields.get_field_decimal(32)?;
        let last_px = fields.get_field_decimal(31)?;
        let transact_time = require_u64(fields, 60)?;
        let text = fields.get_field_str(58)?;
        Ok(
            FixExecutionReport {
                order_id,
                cl_ord_id,
                exec_id,
                ord_status,
                symbol,
                side,
                leaves_qty,
                cum_qty,
                avg_px,
                last_qty,
                last_px,
                transact_time,
                text,
            },
        )
    }
}

/// A decoded header, or the error, by their views.
pub open spec fn header_result_view(r: Result<FixHeader, CodecError>) -> Result<
    FixHeaderView,
    CodecErrorView,
> {
    match r {
        Ok(header) => Ok(header@),
        Err(e) => Err(e@),
    }
}

/// A decoded body, or the error, by their views.
pub open spec fn body_result_view(r: Result<FixMessageBody, CodecError>) -> Result<
    FixMessageBodyView,
    CodecErrorView,
> {
    match r {
        Ok(body) => Ok(body@),
        Err(e) => Err(e@),
    }
}

/// The result of decoding, by the views of the message and of the error.
pub open spec fn message_result_view(r: Result<Option<FixMessage>, CodecError>) -> Result<
    Option<FixMessageView>,
    CodecErrorView,
> {
    match r {
        Ok(Some(message)) => Ok(Some(message@)),
        Ok(None) => Ok(None),
        Err(e) => Err(e@),
    }
}

/// Reads the header from `fields`.
pub fn decode_header(fields: &FixFieldMap) -> (r: Result<FixHeader, CodecError>)
    ensures
        header_result_view(r) == header_of_fields(fields.fields()),
{
    let begin_string = require_str(fields, 8)?;
    let body_length = require_u32(fields, 9)?;
    let msg_type = require_str(fields, 35)?;
    let sender_comp_id = require_str(fields, 49)?;
    let target_comp_id = require_str(fields, 56)?;
    let msg_seq_num = require_u32(fields, 34)?;
    let sending_time = require_u64(fields, 52)?;
    Ok(
        FixHeader {
            begin_string,
            body_length,
            msg_type,
            sender_comp_id,
            target_comp_id,
            msg_seq_num,
            sending_time,
        },
    )
}

/// Reads the body from `fields`, as the kind of message that tag 35 names.
pub fn decode_message_body(fields: &FixFieldMap) -> (r: Result<FixMessageBody, CodecError>)
    ensures
        body_result_view(r) == body_of_fields(fields.fields()),
{
    let kind: u8 = match fields.get_field_bytes(35) {
        Some(bytes) => {
            if bytes.len() == 1 {
                proof {
                    assert(bytes@ =~= seq![bytes@[0]]);
                }
                bytes[0]
            } else {
                0
            }
        },
        None => 0,
    };
    if kind == 68 {
        Ok(FixMessageBody::NewOrderSingle(FixNewOrderSingle::decode_body(fields)?))
    } else if kind == 65 {
        Ok(FixMessageBody::Logon(FixLogon::decode_body(fields)?))
    } else if kind == 56 {
        Ok(FixMessageBody::ExecutionReport(FixExecutionReport::decode_body(fields)?))
    } else {
        proof {
            let msg_type = lookup(fields.fields(), 35);
            assert(msg_type != Some(seq![68u8]) && msg_type != Some(seq![65u8]) && msg_type
                != Some(seq![56u8])) by {
                if msg_type is Some && msg_type->0.len() == 1 {
                    assert(seq![68u8][0] == 68u8);
                    assert(seq![65u8][0] == 65u8);
                    assert(seq![56u8][0] == 56u8);
                }
            }
        }
        match fields.get_field_str(35) {
            Ok(Some(text)) => Err(CodecError::UnsupportedMessageType(text)),
            Ok(None) => Err(CodecError::MissingField(35)),
            Err(e) => Err(e),
        }
    }
}

/// Decodes one frame: the bytes from an `8=` through the SOH that ends the
/// checksum field.
pub fn decode_frame(frame: &[u8]) -> (r: Result<Option<FixMessage>, CodecError>)
    ensures
        message_result_view(r) == message_of_frame(frame@),
{
    if frame.len() < TRAILER_LEN {
        return Err(CodecError::InvalidFormat("Message too short".to_owned()));
    }
    let mut field_map = FixFieldMap::new();
    field_map.set_data(frame)?;
    match field_map.parse_fields() {
        Ok(()) => {},
        Err(CodecError::IncompleteMessage) => {
            return Ok(None);
        },
        Err(e) => {
            return Err(e);
        },
    }
    verify_checksum(frame)?;
    let header = decode_header(&field_map)?;
    let body = decode_message_body(&field_map)?;
    Ok(Some(FixMessage { header, body }))
}

/// What decoding does to a buffer that holds `buf`: how many bytes it takes
/// from the front, and what it returns. Where no frame is found, nothing is
/// taken and nothing returned; else the buffer loses everything through the
/// end of the first frame, and that frame is decoded.
pub open spec fn decoded(buf: Seq<u8>) -> (int, Result<Option<FixMessageView>, CodecErrorView>) {
    match frame_of(buf) {
        None => (0, Ok(None)),
        Some((start, end)) => (end, message_of_frame(buf.subrange(start, end))),
    }
}

/// Decodes the first framed message of `buffer`. Without a complete frame
/// the buffer is left as it is and there is no message. With one, the buffer
/// is advanced past it, the bytes before it included, whatever the frame
/// then decodes to.
pub fn decode_fix_message(buffer: &mut BytesMut) -> (r: Result<Option<FixMessage>, CodecError>)
    ensures
        message_result_view(r) == decoded(buffer_bytes(*old(buffer))).1,
        buffer_bytes(*final(buffer)) == buffer_bytes(*old(buffer)).subrange(
            decoded(buffer_bytes(*old(buffer))).0,
            buffer_bytes(*old(buffer)).len() as int,
        ),
{
    let ghost before = buffer_bytes(*buffer);
    proof {
        assert(before.subrange(0, before.len() as int) =~= before);
    }
    if buffer.is_empty() {
        proof {
            assert(frame_of(before) is None);
        }
        return Ok(None);
    }
    let (start, end) = match locate_frame(buffer_slice(buffer)) {
        Some(bounds) => bounds,
        None => {
            return Ok(None);
        },
    };
    if start > 0 {
        let _ = buffer.split_to(start);
    }
    let message_data = buffer.split_to(end - start);
    proof {
        assert(buffer_bytes(message_data) =~= before.subrange(start as int, end as int));
        assert(buffer_bytes(*buffer) =~= before.subrange(end as int, before.len() as int));
    }
    decode_frame(buffer_slice(&message_data))
}

} // verus!
