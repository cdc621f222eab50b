//! Round trips: decoding gives back each kind of message that was encoded.

use super::body_fields::{
    execution_closing_fields, execution_identity_fields, execution_instrument_fields,
    execution_quantity_fields, execution_report_fields, flag_byte, logon_fields,
    new_order_single_fields, optional_decimal_bytes, optional_field, optional_text_bytes,
    ord_type_byte, side_byte, status_byte, tif_byte,
};
use super::body_parse::{
    execution_report_of_fields, field_byte, logon_of_fields, message_of_frame,
    new_order_single_of_fields, symbol_field, tif_field,
};
use super::error::CodecErrorView;
use super::field_map::{field_decimal, field_str, lemma_find_tag_is, lookup};
use super::fix_codec::{decoded, encoded_message, FixEncoder};
use super::framing::trailer_mark_at;
use super::laws::{
    lemma_digits_safe, lemma_lookup_concat, lemma_lookup_one, lemma_message_read_back,
    lemma_text_read_back, lemma_u32_read_back, lemma_u64_read_back, message_fields, sent_header,
    well_framed,
};
use crate::common_types::{symbol_text, OrderStatus, OrderType, Side, TimeInForce};
use crate::decimal::DecimalView;
use super::wire::{digits, WireField, SOH};
use super::wire_lemmas::{field_clean, field_safe, fields_clean};
use super::wire_safety::{order_wire_safe, report_wire_safe, symbol_wire_safe};
use crate::protocol_defs::fix_messages::{
    FixExecutionReport, FixExecutionReportView, FixLogon, FixMessageBodyView, FixMessageView,
    FixNewOrderSingle, FixNewOrderSingleView,
};
use vstd::prelude::*;
use vstd::utf8::*;

verus! {

/// The message types as bytes, each a safe value.
pub(crate) proof fn lemma_type_bytes()
    ensures
        encode_utf8("A"@) == seq![65u8],
        encode_utf8("D"@) == seq![68u8],
        encode_utf8("8"@) == seq![56u8],
        field_safe(seq![65u8]),
        field_safe(seq![68u8]),
        field_safe(seq![56u8]),
{
    reveal_strlit("A");
    reveal_strlit("D");
    reveal_strlit("8");
    assert(is_ascii_chars("A"@));
    assert(is_ascii_chars("D"@));
    assert(is_ascii_chars("8"@));
    is_ascii_chars_encode_utf8("A"@);
    is_ascii_chars_encode_utf8("D"@);
    is_ascii_chars_encode_utf8("8"@);
    assert(encode_utf8("A"@) =~= seq![65u8]);
    assert(encode_utf8("D"@) =~= seq![68u8]);
    assert(encode_utf8("8"@) =~= seq![56u8]);
    lemma_byte_safe(65);
    lemma_byte_safe(68);
    lemma_byte_safe(56);
}

/// A single byte other than SOH is a safe value.
pub(crate) proof fn lemma_byte_safe(byte: u8)
    requires
        byte != SOH,
    ensures
        field_safe(seq![byte]),
{
    let v = seq![byte];
    assert forall|i: int| !trailer_mark_at(v, i) by {}
    assert forall|i: int| 0 <= i < v.len() implies v[i] != SOH by {}
}

/// A field that is only there where it has a value is found exactly then.
pub(crate) proof fn lemma_lookup_optional(tag: u32, value: Option<Seq<u8>>, wanted: u32)
    ensures
        lookup(optional_field(tag, value), wanted) == if wanted == tag {
            value
        } else {
            None::<Seq<u8>>
        },
{
    match value {
        Some(v) => {
            lemma_lookup_one(WireField { tag, value: v }, wanted);
        },
        None => {},
    }
}

/// The fields of a Logon are found under their tags.
pub(crate) proof fn lemma_logon_lookups(m: FixLogon)
    ensures
        lookup(logon_fields(m), 98) == Some(digits(m.encrypt_method as nat)),
        lookup(logon_fields(m), 108) == Some(digits(m.heart_bt_int as nat)),
        lookup(logon_fields(m), 141) == match m.reset_seq_num_flag {
            Some(flag) => Some(seq![flag_byte(flag)]),
            None => None::<Seq<u8>>,
        },
        fields_clean(logon_fields(m)),
        logon_fields(m).len() <= 3,
{
    let sure = seq![
        WireField { tag: 98, value: digits(m.encrypt_method as nat) },
        WireField { tag: 108, value: digits(m.heart_bt_int as nat) },
    ];
    let flag = optional_field(
        141,
        match m.reset_seq_num_flag {
            Some(flag) => Some(seq![flag_byte(flag)]),
            None => None,
        },
    );
    lemma_find_tag_is(sure, 98, 0, 0);
    lemma_find_tag_is(sure, 108, 0, 1);
    lemma_find_tag_is(sure, 141, 0, 2);
    lemma_lookup_concat(sure, flag, 98);
    lemma_lookup_concat(sure, flag, 108);
    lemma_lookup_concat(sure, flag, 141);
    lemma_lookup_optional(
        141,
        match m.reset_seq_num_flag {
            Some(flag) => Some(seq![flag_byte(flag)]),
            None => None,
        },
        141,
    );
    lemma_digits_safe(m.encrypt_method as nat);
    lemma_digits_safe(m.heart_bt_int as nat);
    lemma_byte_safe(89);
    lemma_byte_safe(78);
    assert forall|i: int| 0 <= i < logon_fields(m).len() implies field_clean(
        #[trigger] logon_fields(m)[i],
    ) by {
        if i < 2 {
            assert(logon_fields(m)[i] == sure[i]);
        } else {
            assert(logon_fields(m)[i] == flag[i - 2]);
        }
    }
}

/// Decoding gives back an encoded Logon: a buffer that begins with the
/// encoding of `m` decodes to `m` under the header it was sent with, and
/// exactly the bytes of the encoding are consumed, whatever follows them.
/// This holds where the two parties' names hold neither SOH nor `10=` and
/// the message fits the 4096 bytes of a frame.
pub proof fn lemma_logon_round_trip(
    m: FixLogon,
    sender: Seq<char>,
    target: Seq<char>,
    msg_seq_num: u32,
    sending_time: u64,
    rest: Seq<u8>,
)
    requires
        field_safe(encode_utf8(sender)),
        field_safe(encode_utf8(target)),
        encoded_message(&m, sender, target, msg_seq_num, sending_time).len() <= 4096,
    ensures
        decoded(encoded_message(&m, sender, target, msg_seq_num, sending_time) + rest) == (
            encoded_message(&m, sender, target, msg_seq_num, sending_time).len() as int,
            Ok::<Option<FixMessageView>, CodecErrorView>(
                Some(
                    FixMessageView {
                        header: sent_header(
                            m.body_bytes(),
                            m.type_text(),
                            sender,
                            target,
                            msg_seq_num,
                            sending_time,
                        ),
                        body: FixMessageBodyView::Logon(m),
                    },
                ),
            ),
        ),
        well_framed(encoded_message(&m, sender, target, msg_seq_num, sending_time)),
        message_of_frame(encoded_message(&m, sender, target, msg_seq_num, sending_time))
            == decoded(encoded_message(&m, sender, target, msg_seq_num, sending_time) + rest).1,
{
    let body_fields = logon_fields(m);
    lemma_type_bytes();
    lemma_logon_lookups(m);
    lemma_message_read_back(
        body_fields,
        "A"@,
        sender,
        target,
        msg_seq_num,
        sending_time,
        rest,
    );
    let all = message_fields(
        body_fields,
        encode_utf8("A"@),
        encode_utf8(sender),
        encode_utf8(target),
        msg_seq_num,
        sending_time,
    );
    assert(lookup(all, 98) == lookup(body_fields, 98));
    assert(lookup(all, 108) == lookup(body_fields, 108));
    assert(lookup(all, 141) == lookup(body_fields, 141));
    lemma_u32_read_back(all, 98, m.encrypt_method);
    lemma_u32_read_back(all, 108, m.heart_bt_int);
    assert(seq![65u8][0] != seq![68u8][0]);
    assert(logon_of_fields(all) == Ok::<FixLogon, CodecErrorView>(m)) by {
        match m.reset_seq_num_flag {
            Some(flag) => {
                assert(seq![flag_byte(flag)][0] == flag_byte(flag));
            },
            None => {},
        }
    }
}

/// A decimal that can cross the wire is read back unchanged.
pub(crate) proof fn lemma_decimal_read_back(fields: Seq<WireField>, tag: u32, d: DecimalView)
    requires
        lookup(fields, tag) == Some(encode_utf8(d.text())),
        d.reads_back(),
    ensures
        field_decimal(fields, tag) == Ok::<Option<DecimalView>, CodecErrorView>(Some(d)),
{
    encode_utf8_valid_utf8(d.text());
    encode_utf8_decode_utf8(d.text());
}

/// An optional decimal that can cross the wire is read back unchanged.
pub(crate) proof fn lemma_optional_decimal_read_back(
    fields: Seq<WireField>,
    tag: u32,
    d: Option<DecimalView>,
)
    requires
        lookup(fields, tag) == optional_decimal_bytes(d),
        d matches Some(number) ==> number.reads_back(),
    ensures
        field_decimal(fields, tag) == Ok::<Option<DecimalView>, CodecErrorView>(d),
{
    match d {
        Some(number) => {
            lemma_decimal_read_back(fields, tag, number);
        },
        None => {},
    }
}

/// An optional text is read back unchanged.
pub(crate) proof fn lemma_optional_text_read_back(
    fields: Seq<WireField>,
    tag: u32,
    text: Option<Seq<char>>,
)
    requires
        lookup(fields, tag) == optional_text_bytes(text),
    ensures
        field_str(fields, tag) == Ok::<Option<Seq<char>>, CodecErrorView>(text),
{
    match text {
        Some(t) => {
            lemma_text_read_back(fields, tag, t);
        },
        None => {},
    }
}

/// A symbol that can cross the wire is read back unchanged.
pub(crate) proof fn lemma_symbol_read_back(fields: Seq<WireField>, raw: Seq<u8>)
    requires
        lookup(fields, 55) == Some(symbol_text(raw)),
        symbol_wire_safe(raw),
    ensures
        symbol_field(fields) == Ok::<Seq<u8>, CodecErrorView>(raw),
{
    let text = symbol_text(raw);
    assert(valid_utf8(Seq::<u8>::empty()));
    assert(valid_utf8(text));
    decode_utf8_encode_utf8(text);
}

/// A single byte in a field is read back as that byte.
pub(crate) proof fn lemma_byte_read_back(
    fields: Seq<WireField>,
    tag: u32,
    byte: u8,
    length_error: Seq<char>,
)
    requires
        lookup(fields, tag) == Some(seq![byte]),
    ensures
        field_byte(fields, tag, length_error) == Ok::<Option<u8>, CodecErrorView>(Some(byte)),
{
    assert(seq![byte][0] == byte);
}

/// Two clean lists in a row are clean.
pub(crate) proof fn lemma_clean_concat(a: Seq<WireField>, b: Seq<WireField>)
    requires
        fields_clean(a),
        fields_clean(b),
    ensures
        fields_clean(a + b),
{
    assert forall|i: int| 0 <= i < (a + b).len() implies field_clean(#[trigger] (a + b)[i]) by {
        if i < a.len() {
            assert((a + b)[i] == a[i]);
        } else {
            assert((a + b)[i] == b[i - a.len()]);
        }
    }
}

/// A field that is only there where it has a value is clean where the
/// value is safe and the tag does not end in `10`.
pub(crate) proof fn lemma_clean_optional(tag: u32, value: Option<Seq<u8>>)
    requires
        tag % 100 != 10,
        value matches Some(v) ==> field_safe(v),
    ensures
        fields_clean(optional_field(tag, value)),
{
}

/// The byte of each enumerated value is a safe value.
pub(crate) proof fn lemma_coded_bytes_safe()
    ensures
        forall|side: Side| field_safe(seq![#[trigger] side_byte(side)]),
        forall|ord_type: OrderType| field_safe(seq![#[trigger] ord_type_byte(ord_type)]),
        forall|tif: TimeInForce| field_safe(seq![#[trigger] tif_byte(tif)]),
        forall|status: OrderStatus| field_safe(seq![#[trigger] status_byte(status)]),
{
    assert forall|side: Side| field_safe(seq![#[trigger] side_byte(side)]) by {
        lemma_byte_safe(side_byte(side));
    }
    assert forall|ord_type: OrderType| field_safe(seq![#[trigger] ord_type_byte(ord_type)]) by {
        lemma_byte_safe(ord_type_byte(ord_type));
    }
    assert forall|tif: TimeInForce| field_safe(seq![#[trigger] tif_byte(tif)]) by {
        lemma_byte_safe(tif_byte(tif));
    }
    assert forall|status: OrderStatus| field_safe(seq![#[trigger] status_byte(status)]) by {
        lemma_byte_safe(status_byte(status));
    }
}

/// The fields of a NewOrderSingle are found under their tags, and are clean
/// where the order can cross the wire.
pub(crate) proof fn lemma_new_order_single_lookups(m: FixNewOrderSingleView)
    requires
        order_wire_safe(m),
    ensures
        ({
            let fields = new_order_single_fields(m);
            &&& lookup(fields, 11) == Some(encode_utf8(m.cl_ord_id))
            &&& lookup(fields, 55) == Some(symbol_text(m.symbol))
            &&& lookup(fields, 54) == Some(seq![side_byte(m.side)])
            &&& lookup(fields, 60) == Some(digits(m.transact_time as nat))
            &&& lookup(fields, 38) == Some(encode_utf8(m.order_qty.text()))
            &&& lookup(fields, 40) == Some(seq![ord_type_byte(m.ord_type)])
            &&& lookup(fields, 44) == optional_decimal_bytes(m.price)
            &&& lookup(fields, 59) == match m.tif {
                Some(tif) => Some(seq![tif_byte(tif)]),
                None => None::<Seq<u8>>,
            }
            &&& fields_clean(fields)
            &&& fields.len() <= 8
        }),
{
    let sure = seq![
        WireField { tag: 11, value: encode_utf8(m.cl_ord_id) },
        WireField { tag: 55, value: symbol_text(m.symbol) },
        WireField { tag: 54, value: seq![side_byte(m.side)] },
        WireField { tag: 60, value: digits(m.transact_time as nat) },
        WireField { tag: 38, value: encode_utf8(m.order_qty.text()) },
        WireField { tag: 40, value: seq![ord_type_byte(m.ord_type)] },
    ];
    let tif_bytes = match m.tif {
        Some(tif) => Some(seq![tif_byte(tif)]),
        None => None::<Seq<u8>>,
    };
    let price = optional_field(44, optional_decimal_bytes(m.price));
    let tif = optional_field(59, tif_bytes);
    let first = sure + price;
    lemma_find_tag_is(sure, 11, 0, 0);
    lemma_find_tag_is(sure, 55, 0, 1);
    lemma_find_tag_is(sure, 54, 0, 2);
    lemma_find_tag_is(sure, 60, 0, 3);
    lemma_find_tag_is(sure, 38, 0, 4);
    lemma_find_tag_is(sure, 40, 0, 5);
    lemma_find_tag_is(sure, 44, 0, 6);
    lemma_find_tag_is(sure, 59, 0, 6);
    lemma_lookup_optional(44, optional_decimal_bytes(m.price), 44);
    lemma_lookup_optional(44, optional_decimal_bytes(m.price), 59);
    lemma_lookup_optional(59, tif_bytes, 44);
    lemma_lookup_optional(59, tif_bytes, 59);
    lemma_lookup_concat(sure, price, 11);
    lemma_lookup_concat(sure, price, 55);
    lemma_lookup_concat(sure, price, 54);
    lemma_lookup_concat(sure, price, 60);
    lemma_lookup_concat(sure, price, 38);
    lemma_lookup_concat(sure, price, 40);
    lemma_lookup_concat(sure, price, 44);
    lemma_lookup_concat(sure, price, 59);
    lemma_lookup_concat(first, tif, 11);
    lemma_lookup_concat(first, tif, 55);
    lemma_lookup_concat(first, tif, 54);
    lemma_lookup_concat(first, tif, 60);
    lemma_lookup_concat(first, tif, 38);
    lemma_lookup_concat(first, tif, 40);
    lemma_lookup_concat(first, tif, 44);
    lemma_lookup_concat(first, tif, 59);

    lemma_coded_bytes_safe();
    lemma_digits_safe(m.transact_time as nat);
    assert(fields_clean(sure));
    lemma_clean_optional(44, optional_decimal_bytes(m.price));
    lemma_clean_optional(59, tif_bytes);
    lemma_clean_concat(sure, price);
    lemma_clean_concat(first, tif);
}

/// Decoding gives back an encoded NewOrderSingle: a buffer that begins with
/// the encoding of `m` decodes to `m` under the header it was sent with, and
/// exactly the bytes of the encoding are consumed, whatever follows them.
/// This holds where the order and the two parties' names can cross the wire
/// and the message fits the 4096 bytes of a frame.
pub proof fn lemma_new_order_single_round_trip(
    m: FixNewOrderSingle,
    sender: Seq<char>,
    target: Seq<char>,
    msg_seq_num: u32,
    sending_time: u64,
    rest: Seq<u8>,
)
    requires
        order_wire_safe(m@),
        field_safe(encode_utf8(sender)),
        field_safe(encode_utf8(target)),
        encoded_message(&m, sender, target, msg_seq_num, sending_time).len() <= 4096,
    ensures
        decoded(encoded_message(&m, sender, target, msg_seq_num, sending_time) + rest) == (
            encoded_message(&m, sender, target, msg_seq_num, sending_time).len() as int,
            Ok::<Option<FixMessageView>, CodecErrorView>(
                Some(
                    FixMessageView {
                        header: sent_header(
                            m.body_bytes(),
                            m.type_text(),
                            sender,
                            target,
                            msg_seq_num,
                            sending_time,
                        ),
                        body: FixMessageBodyView::NewOrderSingle(m@),
                    },
                ),
            ),
        ),
        well_framed(encoded_message(&m, sender, target, msg_seq_num, sending_time)),
        message_of_frame(encoded_message(&m, sender, target, msg_seq_num, sending_time))
            == decoded(encoded_message(&m, sender, target, msg_seq_num, sending_time) + rest).1,
{
    let v = m@;
    let body_fields = new_order_single_fields(v);
    lemma_type_bytes();
    lemma_new_order_single_lookups(v);
    lemma_message_read_back(
        body_fields,
        "D"@,
        sender,
        target,
        msg_seq_num,
        sending_time,
        rest,
    );
    let all = message_fields(
        body_fields,
        encode_utf8("D"@),
        encode_utf8(sender),
        encode_utf8(target),
        msg_seq_num,
        sending_time,
    );
    assert(lookup(all, 11) == lookup(body_fields, 11));
    assert(lookup(all, 55) == lookup(body_fields, 55));
    assert(lookup(all, 54) == lookup(body_fields, 54));
    assert(lookup(all, 60) == lookup(body_fields, 60));
    assert(lookup(all, 38) == lookup(body_fields, 38));
    assert(lookup(all, 40) == lookup(body_fields, 40));
    assert(lookup(all, 44) == lookup(body_fields, 44));
    assert(lookup(all, 59) == lookup(body_fields, 59));
    lemma_text_read_back(all, 11, v.cl_ord_id);
    lemma_symbol_read_back(all, v.symbol);
    lemma_byte_read_back(all, 54, side_byte(v.side), "Invalid side value length"@);
    lemma_u64_read_back(all, 60, v.transact_time);
    lemma_decimal_read_back(all, 38, v.order_qty);
    lemma_byte_read_back(all, 40, ord_type_byte(v.ord_type), "Invalid order type value length"@);
    lemma_optional_decimal_read_back(all, 44, v.price);
    assert(tif_field(all) == Ok::<Option<TimeInForce>, CodecErrorView>(v.tif)) by {
        match v.tif {
            Some(tif) => {
                lemma_byte_read_back(all, 59, tif_byte(tif), "Invalid TIF value length"@);
            },
            None => {},
        }
    }
    assert(new_order_single_of_fields(all) == Ok::<FixNewOrderSingleView, CodecErrorView>(v));
}

/// A lookup in four lists in a row finds what the first of them that holds
/// the tag holds.
pub(crate) proof fn lemma_lookup_four(
    a: Seq<WireField>,
    b: Seq<WireField>,
    c: Seq<WireField>,
    d: Seq<WireField>,
    tag: u32,
)
    ensures
        lookup(a + b + c + d, tag) == if lookup(a, tag) is Some {
            lookup(a, tag)
        } else if lookup(b, tag) is Some {
            lookup(b, tag)
        } else if lookup(c, tag) is Some {
            lookup(c, tag)
        } else {
            lookup(d, tag)
        },
{
    lemma_lookup_concat(a, b, tag);
    lemma_lookup_concat(a + b, c, tag);
    lemma_lookup_concat(a + b + c, d, tag);
}

/// What a lookup finds among the fields that identify an execution.
pub(crate) proof fn lemma_identity_lookups(m: FixExecutionReportView, tag: u32)
    ensures
        lookup(execution_identity_fields(m), tag) == if tag == 37 {
            Some(digits(m.order_id as nat))
        } else if tag == 11 {
            optional_text_bytes(m.cl_ord_id)
        } else if tag == 17 {
            Some(encode_utf8(m.exec_id))
        } else if tag == 39 {
            Some(seq![status_byte(m.ord_status)])
        } else {
            None::<Seq<u8>>
        },
{
    let a = seq![WireField { tag: 37, value: digits(m.order_id as nat) }];
    let o = optional_field(11, optional_text_bytes(m.cl_ord_id));
    let b = seq![
        WireField { tag: 17, value: encode_utf8(m.exec_id) },
        WireField { tag: 39, value: seq![status_byte(m.ord_status)] },
    ];
    lemma_lookup_one(a[0], tag);
    assert(a =~= seq![a[0]]);
    lemma_lookup_optional(11, optional_text_bytes(m.cl_ord_id), tag);
    if tag == 17 {
        lemma_find_tag_is(b, tag, 0, 0);
    } else if tag == 39 {
        lemma_find_tag_is(b, tag, 0, 1);
    } else {
        lemma_find_tag_is(b, tag, 0, 2);
    }
    lemma_lookup_concat(a, o, tag);
    lemma_lookup_concat(a + o, b, tag);
}

/// What a lookup finds among the fields that name what was traded.
pub(crate) proof fn lemma_instrument_lookups(m: FixExecutionReportView, tag: u32)
    ensures
        lookup(execution_instrument_fields(m), tag) == if tag == 55 {
            Some(symbol_text(m.symbol))
        } else if tag == 54 {
            Some(seq![side_byte(m.side)])
        } else {
            None::<Seq<u8>>
        },
{
    let b = execution_instrument_fields(m);
    if tag == 55 {
        lemma_find_tag_is(b, tag, 0, 0);
    } else if tag == 54 {
        lemma_find_tag_is(b, tag, 0, 1);
    } else {
        lemma_find_tag_is(b, tag, 0, 2);
    }
}

/// What a lookup finds among the quantities and prices of an execution.
pub(crate) proof fn lemma_quantity_lookups(m: FixExecutionReportView, tag: u32)
    ensures
        lookup(execution_quantity_fields(m), tag) == if tag == 151 {
            Some(encode_utf8(m.leaves_qty.text()))
        } else if tag == 14 {
            Some(encode_utf8(m.cum_qty.text()))
        } else if tag == 6 {
            Some(encode_utf8(m.avg_px.text()))
        } else if tag == 32 {
            optional_decimal_bytes(m.last_qty)
        } else if tag == 31 {
            optional_decimal_bytes(m.last_px)
        } else {
            None::<Seq<u8>>
        },
{
    let a = seq![
        WireField { tag: 151, value: encode_utf8(m.leaves_qty.text()) },
        WireField { tag: 14, value: encode_utf8(m.cum_qty.text()) },
        WireField { tag: 6, value: encode_utf8(m.avg_px.text()) },
    ];
    let q = optional_field(32, optional_decimal_bytes(m.last_qty));
    let p = optional_field(31, optional_decimal_bytes(m.last_px));
    if tag == 151 {
        lemma_find_tag_is(a, tag, 0, 0);
    } else if tag == 14 {
        lemma_find_tag_is(a, tag, 0, 1);
    } else if tag == 6 {
        lemma_find_tag_is(a, tag, 0, 2);
    } else {
        lemma_find_tag_is(a, tag, 0, 3);
    }
    lemma_lookup_optional(32, optional_decimal_bytes(m.last_qty), tag);
    lemma_lookup_optional(31, optional_decimal_bytes(m.last_px), tag);
    lemma_lookup_concat(a, q, tag);
    lemma_lookup_concat(a + q, p, tag);
}

/// What a lookup finds among the fields that close an execution report.
pub(crate) proof fn lemma_closing_lookups(m: FixExecutionReportView, tag: u32)
    ensures
        lookup(execution_closing_fields(m), tag) == if tag == 60 {
            Some(digits(m.transact_time as nat))
        } else if tag == 58 {
            optional_text_bytes(m.text)
        } else {
            None::<Seq<u8>>
        },
{
    let a = seq![WireField { tag: 60, value: digits(m.transact_time as nat) }];
    let o = optional_field(58, optional_text_bytes(m.text));
    lemma_lookup_one(a[0], tag);
    assert(a =~= seq![a[0]]);
    lemma_lookup_optional(58, optional_text_bytes(m.text), tag);
    lemma_lookup_concat(a, o, tag);
}

/// The fields of an ExecutionReport are clean where the report can cross
/// the wire, and there are at most 13 of them.
pub(crate) proof fn lemma_execution_report_clean(m: FixExecutionReportView)
    requires
        report_wire_safe(m),
    ensures
        fields_clean(execution_report_fields(m)),
        execution_report_fields(m).len() <= 13,
{
    lemma_coded_bytes_safe();
    lemma_digits_safe(m.order_id as nat);
    lemma_digits_safe(m.transact_time as nat);
    let a1 = seq![WireField { tag: 37, value: digits(m.order_id as nat) }];
    let o11 = optional_field(11, optional_text_bytes(m.cl_ord_id));
    let a2 = seq![
        WireField { tag: 17, value: encode_utf8(m.exec_id) },
        WireField { tag: 39, value: seq![status_byte(m.ord_status)] },
    ];
    lemma_clean_optional(11, optional_text_bytes(m.cl_ord_id));
    assert(fields_clean(a1));
    assert(fields_clean(a2));
    lemma_clean_concat(a1, o11);
    lemma_clean_concat(a1 + o11, a2);
    let g1 = execution_identity_fields(m);
    let g2 = execution_instrument_fields(m);
    assert(fields_clean(g2));
    let b1 = seq![
        WireField { tag: 151, value: encode_utf8(m.leaves_qty.text()) },
        WireField { tag: 14, value: encode_utf8(m.cum_qty.text()) },
        WireField { tag: 6, value: encode_utf8(m.avg_px.text()) },
    ];
    let o32 = optional_field(32, optional_decimal_bytes(m.last_qty));
    let o31 = optional_field(31, optional_decimal_bytes(m.last_px));
    assert(fields_clean(b1));
    lemma_clean_optional(32, optional_decimal_bytes(m.last_qty));
    lemma_clean_optional(31, optional_decimal_bytes(m.last_px));
    lemma_clean_concat(b1, o32);
    lemma_clean_concat(b1 + o32, o31);
    let g3 = execution_quantity_fields(m);
    let c1 = seq![WireField { tag: 60, value: digits(m.transact_time as nat) }];
    let o58 = optional_field(58, optional_text_bytes(m.text));
    assert(fields_clean(c1));
    lemma_clean_optional(58, optional_text_bytes(m.text));
    lemma_clean_concat(c1, o58);
    let g4 = execution_closing_fields(m);
    lemma_clean_concat(g1, g2);
    lemma_clean_concat(g1 + g2, g3);
    lemma_clean_concat(g1 + g2 + g3, g4);
}

/// What a lookup finds among the fields of an ExecutionReport: each field
/// under its tag, and nothing under any other tag.
pub(crate) proof fn lemma_execution_report_lookup(m: FixExecutionReportView, tag: u32)
    ensures
        lookup(execution_report_fields(m), tag) == if tag == 37 {
            Some(digits(m.order_id as nat))
        } else if tag == 11 {
            optional_text_bytes(m.cl_ord_id)
        } else if tag == 17 {
            Some(encode_utf8(m.exec_id))
        } else if tag == 39 {
            Some(seq![status_byte(m.ord_status)])
        } else if tag == 55 {
            Some(symbol_text(m.symbol))
        } else if tag == 54 {
            Some(seq![side_byte(m.side)])
        } else if tag == 151 {
            Some(encode_utf8(m.leaves_qty.text()))
        } else if tag == 14 {
            Some(encode_utf8(m.cum_qty.text()))
        } else if tag == 6 {
            Some(encode_utf8(m.avg_px.text()))
        } else if tag == 32 {
            optional_decimal_bytes(m.last_qty)
        } else if tag == 31 {
            optional_decimal_bytes(m.last_px)
        } else if tag == 60 {
            Some(digits(m.transact_time as nat))
        } else if tag == 58 {
            optional_text_bytes(m.text)
        } else {
            None::<Seq<u8>>
        },
{
    lemma_identity_lookups(m, tag);
    lemma_instrument_lookups(m, tag);
    lemma_quantity_lookups(m, tag);
    lemma_closing_lookups(m, tag);
    lemma_lookup_four(
        execution_identity_fields(m),
        execution_instrument_fields(m),
        execution_quantity_fields(m),
        execution_closing_fields(m),
        tag,
    );
}

/// Decoding gives back an encoded ExecutionReport: a buffer that begins
/// with the encoding of `m` decodes to `m` under the header it was sent
/// with, and exactly the bytes of the encoding are consumed, whatever
/// follows them. This holds where the report and the two parties' names can
/// cross the wire and the message fits the 4096 bytes of a frame.
pub proof fn lemma_execution_report_round_trip(
    m: FixExecutionReport,
    sender: Seq<char>,
    target: Seq<char>,
    msg_seq_num: u32,
    sending_time: u64,
    rest: Seq<u8>,
)
    requires
        report_wire_safe(m@),
        field_safe(encode_utf8(sender)),
        field_safe(encode_utf8(target)),
        encoded_message(&m, sender, target, msg_seq_num, sending_time).len() <= 4096,
    ensures
        decoded(encoded_message(&m, sender, target, msg_seq_num, sending_time) + rest) == (
            encoded_message(&m, sender, target, msg_seq_num, sending_time).len() as int,
            Ok::<Option<FixMessageView>, CodecErrorView>(
                Some(
                    FixMessageView {
                        header: sent_header(
                            m.body_bytes(),
                            m.type_text(),
                            sender,
                            target,
                            msg_seq_num,
                            sending_time,
                        ),
                        body: FixMessageBodyView::ExecutionReport(m@),
                    },
                ),
            ),
        ),
        well_framed(encoded_message(&m, sender, target, msg_seq_num, sending_time)),
        message_of_frame(encoded_message(&m, sender, target, msg_seq_num, sending_time))
            == decoded(encoded_message(&m, sender, target, msg_seq_num, sending_time) + rest).1,
{
    let v = m@;
    let body_fields = execution_report_fields(v);
    lemma_type_bytes();
    lemma_execution_report_clean(v);
    lemma_execution_report_lookup(v, 37);
    lemma_execution_report_lookup(v, 11);
    lemma_execution_report_lookup(v, 17);
    lemma_execution_report_lookup(v, 39);
    lemma_execution_report_lookup(v, 55);
    lemma_execution_report_lookup(v, 54);
    lemma_execution_report_lookup(v, 151);
    lemma_execution_report_lookup(v, 14);
    lemma_execution_report_lookup(v, 6);
    lemma_execution_report_lookup(v, 32);
    lemma_execution_report_lookup(v, 31);
    lemma_execution_report_lookup(v, 60);
    lemma_execution_report_lookup(v, 58);
    lemma_message_read_back(
        body_fields,
        "8"@,
        sender,
        target,
        msg_seq_num,
        sending_time,
        rest,
    );
    let all = message_fields(
        body_fields,
        encode_utf8("8"@),
        encode_utf8(sender),
        encode_utf8(target),
        msg_seq_num,
        sending_time,
    );
    assert(lookup(all, 37) == lookup(body_fields, 37));
    assert(lookup(all, 11) == lookup(body_fields, 11));
    assert(lookup(all, 17) == lookup(body_fields, 17));
    assert(lookup(all, 39) == lookup(body_fields, 39));
    assert(lookup(all, 55) == lookup(body_fields, 55));
    assert(lookup(all, 54) == lookup(body_fields, 54));
    assert(lookup(all, 151) == lookup(body_fields, 151));
    assert(lookup(all, 14) == lookup(body_fields, 14));
    assert(lookup(all, 6) == lookup(body_fields, 6));
    assert(lookup(all, 32) == lookup(body_fields, 32));
    assert(lookup(all, 31) == lookup(body_fields, 31));
    assert(lookup(all, 60) == lookup(body_fields, 60));
    assert(lookup(all, 58) == lookup(body_fields, 58));
    lemma_u64_read_back(all, 37, v.order_id);
    lemma_optional_text_read_back(all, 11, v.cl_ord_id);
    lemma_text_read_back(all, 17, v.exec_id);
    lemma_byte_read_back(
        all,
        39,
        status_byte(v.ord_status),
        "Invalid order status value length"@,
    );
    lemma_symbol_read_back(all, v.symbol);
    lemma_byte_read_back(all, 54, side_byte(v.side), "Invalid side value length"@);
    lemma_decimal_read_back(all, 151, v.leaves_qty);
    lemma_decimal_read_back(all, 14, v.cum_qty);
    lemma_decimal_read_back(all, 6, v.avg_px);
    lemma_optional_decimal_read_back(all, 32, v.last_qty);
    lemma_optional_decimal_read_back(all, 31, v.last_px);
    lemma_u64_read_back(all, 60, v.transact_time);
    lemma_optional_text_read_back(all, 58, v.text);
    assert(seq![56u8][0] != seq![68u8][0]);
    assert(seq![56u8][0] != seq![65u8][0]);
    assert(execution_report_of_fields(all) == Ok::<FixExecutionReportView, CodecErrorView>(v));
}

} // verus!
