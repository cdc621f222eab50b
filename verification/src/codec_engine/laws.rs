//! What holds of encoding and decoding together: a decoder given an encoded
//! message gives the message back, however the buffer goes on behind it and
//! whatever garbage stands before it; and a message that is not yet whole
//! is left alone.

use super::body_parse::{body_of_fields, header_of_fields, message_of_frame};
use super::fix_codec::decoded;
use super::error::CodecErrorView;
use super::field_map::{field_str, field_u32, field_u64, find_tag, lemma_find_tag_is, lookup};
use super::framing::{
    begin_string, checksum_check, checksum_digits, counted_header_fields, declared_length,
    framed_message, header_fields, message_prefix,
};
use super::framing::{
    begin_mark_at, find_begin_mark, find_trailer_mark, frame_of, lemma_find_begin_mark,
    lemma_find_begin_mark_is, lemma_find_trailer_mark, lemma_find_trailer_mark_is,
    trailer_mark_at,
};
use super::wire::{
    all_digits, checksum_of, digits, digits_value, field_bytes, fields_bytes, is_digit,
    lemma_digits,
    lemma_fields_bytes_concat, lemma_fields_bytes_one, parses_within, scan_fields, Scan, ScanEnd,
    WireField, SOH,
};
use super::wire_lemmas::{
    field_clean, field_safe, fields_clean, has_trailer_mark, lemma_field_bytes_layout,
    lemma_fields_bytes_end, lemma_no_mark_in_fields, lemma_scan_written,
};
use crate::protocol_defs::fix_messages::{FixHeaderView, FixMessageView};
use vstd::prelude::*;
use vstd::utf8::*;

verus! {

/// `find_tag` gives the first field with the tag: no field before it has it.
pub(crate) proof fn lemma_find_tag(fields: Seq<WireField>, tag: u32, from: int)
    requires
        0 <= from <= fields.len(),
    ensures
        from <= find_tag(fields, tag, from) <= fields.len(),
        find_tag(fields, tag, from) < fields.len() ==> fields[find_tag(fields, tag, from)].tag
            == tag,
        forall|j: int| from <= j < find_tag(fields, tag, from) ==> fields[j].tag != tag,
    decreases fields.len() - from,
{
    if from < fields.len() && fields[from].tag != tag {
        lemma_find_tag(fields, tag, from + 1);
    }
}

/// A lookup in two lists in a row finds what the first list holds, and
/// looks into the second only where the first holds nothing.
pub(crate) proof fn lemma_lookup_concat(a: Seq<WireField>, b: Seq<WireField>, tag: u32)
    ensures
        lookup(a + b, tag) == if lookup(a, tag) is Some {
            lookup(a, tag)
        } else {
            lookup(b, tag)
        },
{
    let all = a + b;
    lemma_find_tag(a, tag, 0);
    lemma_find_tag(b, tag, 0);
    let i = find_tag(a, tag, 0);
    let k = find_tag(b, tag, 0);
    if i < a.len() {
        assert(all[i] == a[i]);
        assert forall|j: int| 0 <= j < i implies all[j].tag != tag by {
            assert(all[j] == a[j]);
        }
        lemma_find_tag_is(all, tag, 0, i);
    } else {
        let at = a.len() + k;
        assert forall|j: int| 0 <= j < at implies all[j].tag != tag by {
            if j < a.len() {
                assert(all[j] == a[j]);
            } else {
                assert(all[j] == b[j - a.len()]);
            }
        }
        if k < b.len() {
            assert(all[at] == b[k]);
        }
        lemma_find_tag_is(all, tag, 0, at);
    }
}

/// A lookup in a list of one field.
pub(crate) proof fn lemma_lookup_one(f: WireField, tag: u32)
    ensures
        lookup(seq![f], tag) == if f.tag == tag {
            Some(f.value)
        } else {
            None::<Seq<u8>>
        },
{
    let one = seq![f];
    if f.tag == tag {
        lemma_find_tag_is(one, tag, 0, 0);
    } else {
        lemma_find_tag_is(one, tag, 0, 1);
    }
}

/// The bytes of the protocol version are the UTF-8 form of `FIX.4.2`.
pub(crate) proof fn lemma_begin_string_text()
    ensures
        encode_utf8("FIX.4.2"@) == begin_string(),
{
    reveal_strlit("FIX.4.2");
    let chars = "FIX.4.2"@;
    assert(is_ascii_chars(chars));
    is_ascii_chars_encode_utf8(chars);
    assert(encode_utf8(chars) =~= begin_string());
}

/// Text that was written as UTF-8 is read back unchanged.
pub(crate) proof fn lemma_text_read_back(fields: Seq<WireField>, tag: u32, text: Seq<char>)
    requires
        lookup(fields, tag) == Some(encode_utf8(text)),
    ensures
        field_str(fields, tag) == Ok::<Option<Seq<char>>, CodecErrorView>(Some(text)),
{
    encode_utf8_valid_utf8(text);
    encode_utf8_decode_utf8(text);
}

/// A number of at most 32 bits that was written in digits is read back
/// unchanged.
pub(crate) proof fn lemma_u32_read_back(fields: Seq<WireField>, tag: u32, value: u32)
    requires
        lookup(fields, tag) == Some(digits(value as nat)),
    ensures
        field_u32(fields, tag) == Ok::<Option<u32>, CodecErrorView>(Some(value)),
{
    lemma_digits(value as nat);
}

/// A number of at most 64 bits that was written in digits is read back
/// unchanged.
pub(crate) proof fn lemma_u64_read_back(fields: Seq<WireField>, tag: u32, value: u64)
    requires
        lookup(fields, tag) == Some(digits(value as nat)),
    ensures
        field_u64(fields, tag) == Ok::<Option<u64>, CodecErrorView>(Some(value)),
{
    lemma_digits(value as nat);
}

/// The header fields are found under their tags whatever follows them, and
/// any other tag is looked up in what follows.
pub(crate) proof fn lemma_header_lookups(
    body_len: nat,
    msg_type: Seq<u8>,
    sender: Seq<u8>,
    target: Seq<u8>,
    msg_seq_num: u32,
    sending_time: u64,
    rest: Seq<WireField>,
)
    ensures
        ({
            let all = header_fields(body_len, msg_type, sender, target, msg_seq_num, sending_time)
                + rest;
            &&& lookup(all, 8) == Some(begin_string())
            &&& lookup(all, 9) == Some(digits(body_len))
            &&& lookup(all, 35) == Some(msg_type)
            &&& lookup(all, 49) == Some(sender)
            &&& lookup(all, 56) == Some(target)
            &&& lookup(all, 34) == Some(digits(msg_seq_num as nat))
            &&& lookup(all, 52) == Some(digits(sending_time as nat))
            &&& forall|tag: u32|
                tag != 8 && tag != 9 && tag != 35 && tag != 49 && tag != 56 && tag != 34 && tag
                    != 52 ==> lookup(all, tag) == lookup(rest, tag)
        }),
{
    let head = header_fields(body_len, msg_type, sender, target, msg_seq_num, sending_time);
    let all = head + rest;
    lemma_find_tag_is(head, 8, 0, 0);
    lemma_find_tag_is(head, 9, 0, 1);
    lemma_find_tag_is(head, 35, 0, 2);
    lemma_find_tag_is(head, 49, 0, 3);
    lemma_find_tag_is(head, 56, 0, 4);
    lemma_find_tag_is(head, 34, 0, 5);
    lemma_find_tag_is(head, 52, 0, 6);
    lemma_lookup_concat(head, rest, 8);
    lemma_lookup_concat(head, rest, 9);
    lemma_lookup_concat(head, rest, 35);
    lemma_lookup_concat(head, rest, 49);
    lemma_lookup_concat(head, rest, 56);
    lemma_lookup_concat(head, rest, 34);
    lemma_lookup_concat(head, rest, 52);
    assert forall|tag: u32|
        tag != 8 && tag != 9 && tag != 35 && tag != 49 && tag != 56 && tag != 34 && tag
            != 52 implies lookup(all, tag) == lookup(rest, tag) by {
        lemma_find_tag_is(head, tag, 0, 7);
        lemma_lookup_concat(head, rest, tag);
    }
}

/// The header that was written is the header that is read, whatever fields
/// follow it.
pub(crate) proof fn lemma_header_read_back(
    body_len: nat,
    msg_type: Seq<char>,
    sender: Seq<char>,
    target: Seq<char>,
    msg_seq_num: u32,
    sending_time: u64,
    rest: Seq<WireField>,
)
    requires
        body_len <= u32::MAX,
    ensures
        header_of_fields(
            header_fields(
                body_len,
                encode_utf8(msg_type),
                encode_utf8(sender),
                encode_utf8(target),
                msg_seq_num,
                sending_time,
            ) + rest,
        ) == Ok::<FixHeaderView, CodecErrorView>(
            FixHeaderView {
                begin_string: "FIX.4.2"@,
                body_length: body_len as u32,
                msg_type,
                sender_comp_id: sender,
                target_comp_id: target,
                msg_seq_num,
                sending_time,
            },
        ),
{
    let all = header_fields(
        body_len,
        encode_utf8(msg_type),
        encode_utf8(sender),
        encode_utf8(target),
        msg_seq_num,
        sending_time,
    ) + rest;
    lemma_header_lookups(
        body_len,
        encode_utf8(msg_type),
        encode_utf8(sender),
        encode_utf8(target),
        msg_seq_num,
        sending_time,
        rest,
    );
    lemma_begin_string_text();
    lemma_text_read_back(all, 8, "FIX.4.2"@);
    lemma_u32_read_back(all, 9, body_len as u32);
    lemma_text_read_back(all, 35, msg_type);
    lemma_text_read_back(all, 49, sender);
    lemma_text_read_back(all, 56, target);
    lemma_u32_read_back(all, 34, msg_seq_num);
    lemma_u64_read_back(all, 52, sending_time);
}

/// The trailer of a message whose header and body are `prefix`.
pub open spec fn trailer_field(prefix: Seq<u8>) -> WireField {
    WireField { tag: 10, value: checksum_digits(checksum_of(prefix)) }
}

/// The header fields and the body fields of a message, in wire order.
pub open spec fn leading_fields(
    body_fields: Seq<WireField>,
    msg_type: Seq<u8>,
    sender: Seq<u8>,
    target: Seq<u8>,
    msg_seq_num: u32,
    sending_time: u64,
) -> Seq<WireField> {
    header_fields(
        declared_length(
            fields_bytes(body_fields),
            msg_type,
            sender,
            target,
            msg_seq_num,
            sending_time,
        ),
        msg_type,
        sender,
        target,
        msg_seq_num,
        sending_time,
    ) + body_fields
}

/// All fields of a message, in wire order: header, body, trailer.
pub open spec fn message_fields(
    body_fields: Seq<WireField>,
    msg_type: Seq<u8>,
    sender: Seq<u8>,
    target: Seq<u8>,
    msg_seq_num: u32,
    sending_time: u64,
) -> Seq<WireField> {
    let leading = leading_fields(body_fields, msg_type, sender, target, msg_seq_num, sending_time);
    leading.push(trailer_field(fields_bytes(leading)))
}

/// A framed message is the wire form of its fields.
pub(crate) proof fn lemma_framed_is_fields(
    body_fields: Seq<WireField>,
    msg_type: Seq<u8>,
    sender: Seq<u8>,
    target: Seq<u8>,
    msg_seq_num: u32,
    sending_time: u64,
)
    ensures
        message_prefix(
            fields_bytes(body_fields),
            msg_type,
            sender,
            target,
            msg_seq_num,
            sending_time,
        ) == fields_bytes(
            leading_fields(body_fields, msg_type, sender, target, msg_seq_num, sending_time),
        ),
        framed_message(
            fields_bytes(body_fields),
            msg_type,
            sender,
            target,
            msg_seq_num,
            sending_time,
        ) == fields_bytes(
            message_fields(body_fields, msg_type, sender, target, msg_seq_num, sending_time),
        ),
{
    let head = header_fields(
        declared_length(
            fields_bytes(body_fields),
            msg_type,
            sender,
            target,
            msg_seq_num,
            sending_time,
        ),
        msg_type,
        sender,
        target,
        msg_seq_num,
        sending_time,
    );
    let leading = head + body_fields;
    lemma_fields_bytes_concat(head, body_fields);
    let trailer = trailer_field(fields_bytes(leading));
    assert(leading.push(trailer).drop_last() =~= leading);
}

/// Digits hold neither SOH nor `10=`.
pub(crate) proof fn lemma_digits_safe(n: nat)
    ensures
        field_safe(digits(n)),
{
    lemma_digits(n);
    let d = digits(n);
    assert forall|i: int| !trailer_mark_at(d, i) by {
        if trailer_mark_at(d, i) {
            assert(is_digit(d[i + 2]));
        }
    }
    assert forall|i: int| 0 <= i < d.len() implies d[i] != SOH by {
        assert(is_digit(d[i]));
    }
}

/// The protocol version holds neither SOH nor `10=`.
pub(crate) proof fn lemma_begin_string_safe()
    ensures
        field_safe(begin_string()),
{
    let b = begin_string();
    assert forall|i: int| !trailer_mark_at(b, i) by {
        if trailer_mark_at(b, i) {
            assert(0 <= i && i + 3 <= 7);
            assert(b[i + 2] == 61);
        }
    }
    assert forall|i: int| 0 <= i < b.len() implies b[i] != SOH by {}
}

/// The header is clean where the message type and the two parties are safe.
pub(crate) proof fn lemma_header_clean(
    body_len: nat,
    msg_type: Seq<u8>,
    sender: Seq<u8>,
    target: Seq<u8>,
    msg_seq_num: u32,
    sending_time: u64,
)
    requires
        field_safe(msg_type),
        field_safe(sender),
        field_safe(target),
    ensures
        fields_clean(header_fields(body_len, msg_type, sender, target, msg_seq_num, sending_time)),
{
    lemma_begin_string_safe();
    lemma_digits_safe(body_len);
    lemma_digits_safe(msg_seq_num as nat);
    lemma_digits_safe(sending_time as nat);
}

/// Whether a message with these body fields and header texts can be framed
/// and found again: every field is clean, the fields fit the field map, and
/// the message fits its buffer.
pub open spec fn frameable(
    body_fields: Seq<WireField>,
    msg_type: Seq<u8>,
    sender: Seq<u8>,
    target: Seq<u8>,
    msg_seq_num: u32,
    sending_time: u64,
) -> bool {
    &&& fields_clean(body_fields)
    &&& field_safe(msg_type)
    &&& field_safe(sender)
    &&& field_safe(target)
    &&& body_fields.len() + 8 <= 64
    &&& framed_message(
        fields_bytes(body_fields),
        msg_type,
        sender,
        target,
        msg_seq_num,
        sending_time,
    ).len() <= 4096
}

/// The layout of a framed message: the prefix, then `10=`, three digits
/// that write the checksum of the prefix, and SOH. The prefix begins with
/// `8=`, ends with SOH, and holds no `10=` where the message is frameable.
pub(crate) proof fn lemma_framed_layout(
    body_fields: Seq<WireField>,
    msg_type: Seq<u8>,
    sender: Seq<u8>,
    target: Seq<u8>,
    msg_seq_num: u32,
    sending_time: u64,
)
    requires
        fields_clean(body_fields),
        field_safe(msg_type),
        field_safe(sender),
        field_safe(target),
    ensures
        ({
            let body = fields_bytes(body_fields);
            let prefix = message_prefix(body, msg_type, sender, target, msg_seq_num, sending_time);
            let msg = framed_message(body, msg_type, sender, target, msg_seq_num, sending_time);
            let sum = checksum_of(prefix);
            let n = prefix.len() as int;
            &&& msg.len() == n + 7
            &&& n >= 3
            &&& msg.subrange(0, n) == prefix
            &&& prefix[0] == 56 && prefix[1] == 61
            &&& prefix.last() == SOH
            &&& !has_trailer_mark(prefix)
            &&& msg[n] == 49
            &&& msg[n + 1] == 48
            &&& msg[n + 2] == 61
            &&& msg.subrange(n + 3, n + 6) == checksum_digits(sum)
            &&& msg[n + 6] == SOH
            &&& 0 <= sum < 256
        }),
{
    let body = fields_bytes(body_fields);
    let declared = declared_length(body, msg_type, sender, target, msg_seq_num, sending_time);
    let head = header_fields(declared, msg_type, sender, target, msg_seq_num, sending_time);
    let leading = head + body_fields;
    let prefix = message_prefix(body, msg_type, sender, target, msg_seq_num, sending_time);
    let msg = framed_message(body, msg_type, sender, target, msg_seq_num, sending_time);
    let sum = checksum_of(prefix);
    let trailer = field_bytes(10, checksum_digits(sum));
    lemma_framed_is_fields(body_fields, msg_type, sender, target, msg_seq_num, sending_time);
    lemma_header_clean(declared, msg_type, sender, target, msg_seq_num, sending_time);
    assert(fields_clean(leading)) by {
        assert forall|i: int| 0 <= i < leading.len() implies field_clean(
            #[trigger] leading[i],
        ) by {
            if i < head.len() {
                assert(leading[i] == head[i]);
            } else {
                assert(leading[i] == body_fields[i - head.len()]);
            }
        }
    }
    lemma_no_mark_in_fields(leading);
    lemma_fields_bytes_end(leading);

    // the prefix begins with the first header field
    let first = head[0];
    assert(leading =~= seq![first] + leading.drop_first());
    lemma_fields_bytes_concat(seq![first], leading.drop_first());
    lemma_fields_bytes_one(first);
    lemma_field_bytes_layout(8, begin_string());
    assert(digits(8) =~= seq![56u8]);
    assert(prefix[0] == field_bytes(8, begin_string())[0]);
    assert(prefix[1] == field_bytes(8, begin_string())[1]);

    // the trailer is `10=`, three digits, SOH
    assert(digits(10) =~= seq![49u8, 48u8]) by {
        reveal_with_fuel(digits, 2);
    }
    lemma_field_bytes_layout(10, checksum_digits(sum));
    let n = prefix.len() as int;
    assert(trailer.len() == 7);
    assert(msg.subrange(0, n) =~= prefix);
    assert(msg[n] == trailer[0]);
    assert(msg[n + 1] == trailer[1]);
    assert(msg[n + 2] == trailer[2]);
    assert(msg[n + 6] == trailer[6]);
    assert(msg.subrange(n + 3, n + 6) =~= checksum_digits(sum)) by {
        assert forall|j: int| 0 <= j < 3 implies msg[n + 3 + j] == checksum_digits(sum)[j] by {
            assert(msg[n + 3 + j] == trailer[3 + j]);
            assert(trailer[2 + 1 + j] == checksum_digits(sum)[j]);
        }
    }
}

/// Whether `msg` is laid out as one frame and nothing else: it begins with
/// `8=`, its last seven bytes are `10=`, three bytes and SOH, the byte
/// before them is SOH, and no `10=` stands before them.
pub open spec fn well_framed(msg: Seq<u8>) -> bool {
    let n = msg.len() - 7;
    &&& n >= 3
    &&& msg[0] == 56 && msg[1] == 61
    &&& msg[n - 1] == SOH
    &&& !has_trailer_mark(msg.subrange(0, n))
    &&& msg[n] == 49 && msg[n + 1] == 48 && msg[n + 2] == 61
    &&& msg[n + 6] == SOH
}

/// In a buffer that begins with a well-framed message, `10=` stands first
/// where the message's trailer begins, however much of the buffer is there.
proof fn lemma_first_mark(msg: Seq<u8>, buf: Seq<u8>)
    requires
        well_framed(msg),
        forall|j: int| 0 <= j < buf.len() && j < msg.len() ==> buf[j] == msg[j],
    ensures
        forall|j: int| 0 <= j < msg.len() - 7 ==> !trailer_mark_at(buf, j),
        buf.len() >= msg.len() - 4 ==> trailer_mark_at(buf, msg.len() - 7),
{
    let n = msg.len() - 7;
    let prefix = msg.subrange(0, n);
    assert forall|j: int| 0 <= j < n implies !trailer_mark_at(buf, j) by {
        if trailer_mark_at(buf, j) {
            if j + 3 <= n {
                assert(prefix[j] == msg[j]);
                assert(prefix[j + 1] == msg[j + 1]);
                assert(prefix[j + 2] == msg[j + 2]);
                assert(trailer_mark_at(prefix, j));
            } else if j == n - 1 {
                assert(buf[j] == msg[n - 1]);
            } else {
                assert(buf[j + 1] == msg[n - 1]);
            }
        }
    }
}

/// A buffer that begins with a well-framed message has that message as its
/// first frame, whatever follows it.
pub proof fn lemma_frame_found(msg: Seq<u8>, rest: Seq<u8>)
    requires
        well_framed(msg),
    ensures
        frame_of(msg + rest) == Some((0int, msg.len() as int)),
        (msg + rest).subrange(0, msg.len() as int) == msg,
{
    let buf = msg + rest;
    let n = msg.len() - 7;
    assert forall|j: int| 0 <= j < buf.len() && j < msg.len() implies buf[j] == msg[j] by {}
    lemma_first_mark(msg, buf);
    assert(begin_mark_at(buf, 0));
    lemma_find_begin_mark_is(buf, 0, 0);
    lemma_find_trailer_mark_is(buf, 0, n);
    assert(buf[n + 6] == msg[n + 6]);
    assert(buf.subrange(0, msg.len() as int) =~= msg);
}

/// A message that is not yet whole is no frame: no proper prefix of a
/// well-framed message holds a frame.
pub(crate) proof fn lemma_prefix_has_no_frame(msg: Seq<u8>, k: int)
    requires
        well_framed(msg),
        0 <= k < msg.len(),
    ensures
        frame_of(msg.subrange(0, k)) is None,
{
    let buf = msg.subrange(0, k);
    let n = msg.len() - 7;
    lemma_first_mark(msg, buf);
    lemma_find_begin_mark(buf, 0);
    let start = find_begin_mark(buf, 0);
    if start < buf.len() {
        lemma_find_trailer_mark(buf, start);
        let mark = find_trailer_mark(buf, start);
        if mark < buf.len() {
            assert(trailer_mark_at(buf, mark));
            assert(mark >= n);
        }
    }
}

/// The three digits of a checksum write the checksum.
pub(crate) proof fn lemma_checksum_digits(sum: int)
    requires
        0 <= sum < 256,
    ensures
        parses_within(checksum_digits(sum), 255),
        digits_value(checksum_digits(sum)) == sum,
{
    let text = checksum_digits(sum);
    let two = text.drop_last();
    let one = two.drop_last();
    assert(one.drop_last() =~= Seq::<u8>::empty());
    assert(digits_value(one.drop_last()) == 0);
    assert(one.last() == text[0]);
    assert(two.last() == text[1]);
    assert(text.last() == text[2]);
    assert(digits_value(one) == sum / 100 % 10);
    assert(digits_value(two) == (sum / 100 % 10) * 10 + sum / 10 % 10);
    assert(digits_value(text) == ((sum / 100 % 10) * 10 + sum / 10 % 10) * 10 + sum % 10);
}

/// The checksum of a framed message checks.
pub proof fn lemma_checksum_checks(
    body: Seq<u8>,
    msg_type: Seq<u8>,
    sender: Seq<u8>,
    target: Seq<u8>,
    msg_seq_num: u32,
    sending_time: u64,
)
    ensures
        checksum_check(
            framed_message(body, msg_type, sender, target, msg_seq_num, sending_time),
        ) == Ok::<(), CodecErrorView>(()),
{
    let prefix = message_prefix(body, msg_type, sender, target, msg_seq_num, sending_time);
    let msg = framed_message(body, msg_type, sender, target, msg_seq_num, sending_time);
    let sum = checksum_of(prefix);
    let text = checksum_digits(sum);
    let trailer = field_bytes(10, text);
    assert(digits(10) =~= seq![49u8, 48u8]) by {
        reveal_with_fuel(digits, 2);
    }
    lemma_field_bytes_layout(10, text);
    let n = prefix.len() as int;
    assert(trailer.len() == 7);
    assert(msg.subrange(0, msg.len() - 7) =~= prefix);
    assert(msg.subrange(msg.len() - 4, msg.len() - 1) =~= text) by {
        assert forall|j: int| 0 <= j < 3 implies msg[n + 3 + j] == text[j] by {
            assert(msg[n + 3 + j] == trailer[3 + j]);
            assert(trailer[2 + 1 + j] == text[j]);
        }
    }
    lemma_checksum_digits(sum);
}

/// The scan of a framed message finds its fields, all of them, in order.
pub(crate) proof fn lemma_scan_message(
    body_fields: Seq<WireField>,
    msg_type: Seq<u8>,
    sender: Seq<u8>,
    target: Seq<u8>,
    msg_seq_num: u32,
    sending_time: u64,
)
    requires
        fields_clean(body_fields),
        field_safe(msg_type),
        field_safe(sender),
        field_safe(target),
        body_fields.len() + 8 <= 64,
    ensures
        scan_fields(
            framed_message(
                fields_bytes(body_fields),
                msg_type,
                sender,
                target,
                msg_seq_num,
                sending_time,
            ),
            64,
        ) == (Scan {
            fields: message_fields(
                body_fields,
                msg_type,
                sender,
                target,
                msg_seq_num,
                sending_time,
            ),
            end: ScanEnd::Complete,
        }),
{
    let body = fields_bytes(body_fields);
    let declared = declared_length(body, msg_type, sender, target, msg_seq_num, sending_time);
    let head = header_fields(declared, msg_type, sender, target, msg_seq_num, sending_time);
    let all = message_fields(body_fields, msg_type, sender, target, msg_seq_num, sending_time);
    let leading = head + body_fields;
    let msg = framed_message(body, msg_type, sender, target, msg_seq_num, sending_time);
    lemma_framed_is_fields(body_fields, msg_type, sender, target, msg_seq_num, sending_time);
    lemma_header_clean(declared, msg_type, sender, target, msg_seq_num, sending_time);
    let sum = checksum_of(fields_bytes(leading));
    assert forall|i: int| 0 <= i < all.len() implies !(#[trigger] all[i]).value.contains(SOH) by {
        if i < head.len() {
            assert(all[i] == head[i]);
            assert(field_clean(head[i]));
        } else if i < leading.len() {
            assert(all[i] == body_fields[i - head.len()]);
            assert(field_clean(body_fields[i - head.len()]));
        } else {
            let text = checksum_digits(sum);
            assert(all[i].value == text);
            assert forall|j: int| 0 <= j < text.len() implies text[j] != SOH by {}
        }
    }
    lemma_scan_written(all, Seq::<u8>::empty(), 64);
    assert(fields_bytes(all) + Seq::<u8>::empty() =~= msg);
    assert(all + Seq::<WireField>::empty() =~= all);
}

/// The header that a message with the body `body` is sent with.
pub open spec fn sent_header(
    body: Seq<u8>,
    msg_type: Seq<char>,
    sender: Seq<char>,
    target: Seq<char>,
    msg_seq_num: u32,
    sending_time: u64,
) -> FixHeaderView {
    FixHeaderView {
        begin_string: "FIX.4.2"@,
        body_length: declared_length(
            body,
            encode_utf8(msg_type),
            encode_utf8(sender),
            encode_utf8(target),
            msg_seq_num,
            sending_time,
        ) as u32,
        msg_type,
        sender_comp_id: sender,
        target_comp_id: target,
        msg_seq_num,
        sending_time,
    }
}

/// The prefix of a message is tag 8, tag 9, and as many bytes as tag 9
/// declares.
pub(crate) proof fn lemma_prefix_length(
    body: Seq<u8>,
    msg_type: Seq<u8>,
    sender: Seq<u8>,
    target: Seq<u8>,
    msg_seq_num: u32,
    sending_time: u64,
)
    ensures
        ({
            let declared = declared_length(
                body,
                msg_type,
                sender,
                target,
                msg_seq_num,
                sending_time,
            );
            message_prefix(body, msg_type, sender, target, msg_seq_num, sending_time).len()
                == field_bytes(8, begin_string()).len() + field_bytes(9, digits(declared)).len()
                + declared
        }),
{
    let declared = declared_length(body, msg_type, sender, target, msg_seq_num, sending_time);
    let head = header_fields(declared, msg_type, sender, target, msg_seq_num, sending_time);
    let counted = counted_header_fields(msg_type, sender, target, msg_seq_num, sending_time);
    let first = seq![head[0]];
    let second = seq![head[1]];
    assert(head =~= first + second + counted);
    lemma_fields_bytes_concat(first, second);
    lemma_fields_bytes_concat(first + second, counted);
    lemma_fields_bytes_one(head[0]);
    lemma_fields_bytes_one(head[1]);
}

/// A frameable message is found again as the first frame of what begins
/// with it. Its frame scans into its fields, its checksum checks and its
/// header reads back, so that it decodes to that header and to whatever its
/// fields hold as a body; and a tag of the body is looked up among the body
/// fields alone.
pub proof fn lemma_message_read_back(
    body_fields: Seq<WireField>,
    msg_type: Seq<char>,
    sender: Seq<char>,
    target: Seq<char>,
    msg_seq_num: u32,
    sending_time: u64,
    rest: Seq<u8>,
)
    requires
        frameable(
            body_fields,
            encode_utf8(msg_type),
            encode_utf8(sender),
            encode_utf8(target),
            msg_seq_num,
            sending_time,
        ),
    ensures
        ({
            let msg = framed_message(
                fields_bytes(body_fields),
                encode_utf8(msg_type),
                encode_utf8(sender),
                encode_utf8(target),
                msg_seq_num,
                sending_time,
            );
            let all = message_fields(
                body_fields,
                encode_utf8(msg_type),
                encode_utf8(sender),
                encode_utf8(target),
                msg_seq_num,
                sending_time,
            );
            let header = sent_header(
                fields_bytes(body_fields),
                msg_type,
                sender,
                target,
                msg_seq_num,
                sending_time,
            );
            &&& well_framed(msg)
            &&& decoded(msg + rest) == (msg.len() as int, message_of_frame(msg))
            &&& message_of_frame(msg) == match body_of_fields(all) {
                Ok(body) => Ok::<Option<FixMessageView>, CodecErrorView>(
                    Some(FixMessageView { header, body }),
                ),
                Err(e) => Err(e),
            }
            &&& lookup(all, 35) == Some(encode_utf8(msg_type))
            &&& forall|tag: u32|
                tag != 8 && tag != 9 && tag != 35 && tag != 49 && tag != 56 && tag != 34 && tag
                    != 52 && tag != 10 ==> lookup(all, tag) == lookup(body_fields, tag)
        }),
{
    let type_bytes = encode_utf8(msg_type);
    let sender_bytes = encode_utf8(sender);
    let target_bytes = encode_utf8(target);
    let body = fields_bytes(body_fields);
    let msg = framed_message(body, type_bytes, sender_bytes, target_bytes, msg_seq_num, sending_time);
    let all = message_fields(
        body_fields,
        type_bytes,
        sender_bytes,
        target_bytes,
        msg_seq_num,
        sending_time,
    );
    let declared = declared_length(
        body,
        type_bytes,
        sender_bytes,
        target_bytes,
        msg_seq_num,
        sending_time,
    );
    let head = header_fields(
        declared,
        type_bytes,
        sender_bytes,
        target_bytes,
        msg_seq_num,
        sending_time,
    );
    let leading = head + body_fields;
    let trailer = trailer_field(fields_bytes(leading));
    let behind = body_fields.push(trailer);

    lemma_framed_layout(
        body_fields,
        type_bytes,
        sender_bytes,
        target_bytes,
        msg_seq_num,
        sending_time,
    );
    let prefix = message_prefix(
        body,
        type_bytes,
        sender_bytes,
        target_bytes,
        msg_seq_num,
        sending_time,
    );
    assert(msg[prefix.len() - 1] == prefix.last()) by {
        assert(msg.subrange(0, prefix.len() as int)[prefix.len() - 1] == msg[prefix.len() - 1]);
    }
    assert(well_framed(msg));
    lemma_frame_found(msg, rest);
    lemma_scan_message(
        body_fields,
        type_bytes,
        sender_bytes,
        target_bytes,
        msg_seq_num,
        sending_time,
    );
    lemma_checksum_checks(body, type_bytes, sender_bytes, target_bytes, msg_seq_num, sending_time);

    assert(all =~= head + behind);
    lemma_prefix_length(body, type_bytes, sender_bytes, target_bytes, msg_seq_num, sending_time);
    assert(declared <= msg.len());
    lemma_header_read_back(
        declared,
        msg_type,
        sender,
        target,
        msg_seq_num,
        sending_time,
        behind,
    );
    lemma_header_lookups(
        declared,
        type_bytes,
        sender_bytes,
        target_bytes,
        msg_seq_num,
        sending_time,
        behind,
    );
    assert forall|tag: u32|
        tag != 8 && tag != 9 && tag != 35 && tag != 49 && tag != 56 && tag != 34 && tag != 52
            && tag != 10 implies lookup(all, tag) == lookup(body_fields, tag) by {
        assert(behind =~= body_fields + seq![trailer]);
        lemma_lookup_concat(body_fields, seq![trailer], tag);
        lemma_lookup_one(trailer, tag);
    }
}

/// An empty buffer holds no message and is left as it is.
pub proof fn lemma_empty_buffer()
    ensures
        decoded(Seq::<u8>::empty()) == (0int, Ok::<Option<FixMessageView>, CodecErrorView>(None)),
{
}

/// Partial input: a buffer that holds only the beginning of a well-framed
/// message holds no message yet, and is left as it is.
pub proof fn lemma_partial_message(msg: Seq<u8>, k: int)
    requires
        well_framed(msg),
        0 <= k < msg.len(),
    ensures
        decoded(msg.subrange(0, k)) == (0int, Ok::<Option<FixMessageView>, CodecErrorView>(None)),
{
    lemma_prefix_has_no_frame(msg, k);
}

/// Searching behind a prefix for `10=` is searching what follows the prefix.
pub(crate) proof fn lemma_find_trailer_mark_shift(garbage: Seq<u8>, buf: Seq<u8>, from: int)
    requires
        0 <= from <= buf.len(),
    ensures
        find_trailer_mark(garbage + buf, garbage.len() + from) == garbage.len()
            + find_trailer_mark(buf, from),
{
    let all = garbage + buf;
    let g = garbage.len() as int;
    lemma_find_trailer_mark(buf, from);
    let at = find_trailer_mark(buf, from);
    assert forall|j: int| g + from <= j < g + at implies !trailer_mark_at(all, j) by {
        if trailer_mark_at(all, j) {
            assert(all[j] == buf[j - g]);
            assert(all[j + 1] == buf[j + 1 - g]);
            assert(all[j + 2] == buf[j + 2 - g]);
            assert(trailer_mark_at(buf, j - g));
        }
    }
    if at < buf.len() {
        assert(all[g + at] == buf[at]);
        assert(all[g + at + 1] == buf[at + 1]);
        assert(all[g + at + 2] == buf[at + 2]);
    }
    lemma_find_trailer_mark_is(all, g + from, g + at);
}

/// Leading garbage: bytes without `8=` before a buffer that begins with
/// `8=` change nothing of what is decoded, and are consumed with the frame
/// where there is one.
pub proof fn lemma_leading_garbage(garbage: Seq<u8>, buf: Seq<u8>)
    requires
        forall|i: int| !begin_mark_at(garbage, i),
        begin_mark_at(buf, 0),
    ensures
        decoded(garbage + buf).1 == decoded(buf).1,
        decoded(garbage + buf).0 == if frame_of(buf) is Some {
            garbage.len() + decoded(buf).0
        } else {
            0
        },
{
    let all = garbage + buf;
    let g = garbage.len() as int;
    assert forall|j: int| 0 <= j < g implies !begin_mark_at(all, j) by {
        if begin_mark_at(all, j) {
            if j + 2 <= g {
                assert(all[j] == garbage[j]);
                assert(all[j + 1] == garbage[j + 1]);
                assert(begin_mark_at(garbage, j));
            } else {
                assert(all[j + 1] == buf[0]);
            }
        }
    }
    assert(all[g] == buf[0]);
    assert(all[g + 1] == buf[1]);
    lemma_find_begin_mark_is(all, 0, g);
    lemma_find_begin_mark_is(buf, 0, 0);
    lemma_find_trailer_mark_shift(garbage, buf, 0);
    lemma_find_trailer_mark(buf, 0);
    let mark = find_trailer_mark(buf, 0);
    if mark < buf.len() && mark + 7 <= buf.len() {
        assert(all[g + mark + 6] == buf[mark + 6]);
        assert(all.subrange(g, g + mark + 7) =~= buf.subrange(0, mark + 7));
    }
}

/// The frames in a row.
pub open spec fn joined(frames: Seq<Seq<u8>>) -> Seq<u8>
    decreases frames.len(),
{
    if frames.len() == 0 {
        Seq::empty()
    } else {
        frames[0] + joined(frames.drop_first())
    }
}

/// What `count` calls of the decoder in a row return on a buffer that holds
/// `buf`, and what the buffer holds after them.
pub open spec fn decoded_run(buf: Seq<u8>, count: nat) -> (
    Seq<Result<Option<FixMessageView>, CodecErrorView>>,
    Seq<u8>,
)
    decreases count,
{
    if count == 0 {
        (Seq::empty(), buf)
    } else {
        let first = decoded(buf);
        let behind = decoded_run(buf.subrange(first.0, buf.len() as int), (count - 1) as nat);
        (seq![first.1] + behind.0, behind.1)
    }
}

/// A stream of messages: a buffer that holds well-framed messages in a row
/// gives them up one call after the other, each call consuming exactly the
/// bytes of one message, and what follows the last of them is left in the
/// buffer.
pub proof fn lemma_stream_of_frames(frames: Seq<Seq<u8>>, tail: Seq<u8>)
    requires
        forall|i: int| 0 <= i < frames.len() ==> well_framed(#[trigger] frames[i]),
    ensures
        decoded_run(joined(frames) + tail, frames.len()) == (
            Seq::new(frames.len(), |i: int| message_of_frame(frames[i])),
            tail,
        ),
    decreases frames.len(),
{
    let results = Seq::new(frames.len(), |i: int| message_of_frame(frames[i]));
    if frames.len() == 0 {
        assert(joined(frames) + tail =~= tail);
        assert(results =~= Seq::empty());
    } else {
        let first = frames[0];
        let others = frames.drop_first();
        let behind = joined(others) + tail;
        let buf = joined(frames) + tail;
        assert(buf =~= first + behind);
        lemma_frame_found(first, behind);
        assert(buf.subrange(first.len() as int, buf.len() as int) =~= behind);
        assert forall|i: int| 0 <= i < others.len() implies well_framed(#[trigger] others[i]) by {
            assert(others[i] == frames[i + 1]);
        }
        lemma_stream_of_frames(others, tail);
        let later = Seq::new(others.len(), |i: int| message_of_frame(others[i]));
        assert(seq![message_of_frame(first)] + later =~= results);
    }
}

/// The length of an encoded message is the length of what stands before
/// the body length counts, tag 8 and tag 9; the body length that tag 9
/// declares; and the seven bytes of the trailer.
pub proof fn lemma_encoded_length(
    body: Seq<u8>,
    msg_type: Seq<u8>,
    sender: Seq<u8>,
    target: Seq<u8>,
    msg_seq_num: u32,
    sending_time: u64,
)
    ensures
        ({
            let declared = declared_length(
                body,
                msg_type,
                sender,
                target,
                msg_seq_num,
                sending_time,
            );
            let header = header_fields(
                declared,
                msg_type,
                sender,
                target,
                msg_seq_num,
                sending_time,
            );
            let tag9 = lookup(header, 9);
            &&& tag9 == Some(digits(declared))
            &&& digits_value(tag9->0) == declared
            &&& framed_message(
                body,
                msg_type,
                sender,
                target,
                msg_seq_num,
                sending_time,
            ).len() == field_bytes(8, begin_string()).len() + field_bytes(9, tag9->0).len()
                + digits_value(tag9->0) + 7
        }),
{
    let declared = declared_length(body, msg_type, sender, target, msg_seq_num, sending_time);
    let header = header_fields(declared, msg_type, sender, target, msg_seq_num, sending_time);
    lemma_header_lookups(
        declared,
        msg_type,
        sender,
        target,
        msg_seq_num,
        sending_time,
        Seq::empty(),
    );
    assert(header + Seq::<WireField>::empty() =~= header);
    lemma_digits(declared);
    lemma_prefix_length(body, msg_type, sender, target, msg_seq_num, sending_time);
    let prefix = message_prefix(body, msg_type, sender, target, msg_seq_num, sending_time);
    assert(digits(10) =~= seq![49u8, 48u8]) by {
        reveal_with_fuel(digits, 2);
    }
    lemma_field_bytes_layout(10, checksum_digits(checksum_of(prefix)));
}

/// The last seven bytes of an encoded message are `10=`, three digits and
/// SOH, and the digits write the sum modulo 256 of all bytes before them.
pub proof fn lemma_encoded_checksum(
    body: Seq<u8>,
    msg_type: Seq<u8>,
    sender: Seq<u8>,
    target: Seq<u8>,
    msg_seq_num: u32,
    sending_time: u64,
)
    ensures
        ({
            let msg = framed_message(body, msg_type, sender, target, msg_seq_num, sending_time);
            let n = msg.len() - 7;
            &&& n >= 0
            &&& msg[n] == 49 && msg[n + 1] == 48 && msg[n + 2] == 61
            &&& all_digits(msg.subrange(n + 3, n + 6))
            &&& digits_value(msg.subrange(n + 3, n + 6)) == checksum_of(msg.subrange(0, n))
            &&& msg[n + 6] == SOH
        }),
{
    let prefix = message_prefix(body, msg_type, sender, target, msg_seq_num, sending_time);
    let msg = framed_message(body, msg_type, sender, target, msg_seq_num, sending_time);
    let sum = checksum_of(prefix);
    let text = checksum_digits(sum);
    let trailer = field_bytes(10, text);
    assert(digits(10) =~= seq![49u8, 48u8]) by {
        reveal_with_fuel(digits, 2);
    }
    lemma_field_bytes_layout(10, text);
    let n = prefix.len() as int;
    assert(trailer.len() == 7);
    assert(msg[n] == trailer[0]);
    assert(msg[n + 1] == trailer[1]);
    assert(msg[n + 2] == trailer[2]);
    assert(msg[n + 6] == trailer[6]);
    assert(msg.subrange(0, n) =~= prefix);
    assert(msg.subrange(n + 3, n + 6) =~= text) by {
        assert forall|j: int| 0 <= j < 3 implies msg[n + 3 + j] == text[j] by {
            assert(msg[n + 3 + j] == trailer[3 + j]);
            assert(trailer[2 + 1 + j] == text[j]);
        }
    }
    lemma_checksum_digits(sum);
}

} // verus!
