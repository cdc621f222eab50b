//! Frames: how a message lies between its `8=` and the SOH that ends its
//! checksum field, both when it is written and when it is looked for.

use super::error::{CodecError, CodecErrorView};
use super::field_map::with_error_view;
use super::text::{lossy_text, string_from_utf8_lossy};
use super::wire::{
    calculate_checksum, checksum_of, digits, digits_value, field_bytes, fields_bytes,
    parse_u32_from_bytes, parses_within, WireField, SOH,
};
use vstd::prelude::*;
use vstd::slice::slice_subrange;

verus! {

/// The length of the trailer `10=NNN<SOH>`.
pub const TRAILER_LEN: usize = 7;

/// The protocol version, `FIX.4.2`, as bytes.
pub open spec fn begin_string() -> Seq<u8> {
    seq![70u8, 73u8, 88u8, 46u8, 52u8, 46u8, 50u8]
}

/// The header fields in wire order: 8, 9, 35, 49, 56, 34, 52, with
/// `body_len` as the body length that tag 9 declares.
pub open spec fn header_fields(
    body_len: nat,
    msg_type: Seq<u8>,
    sender: Seq<u8>,
    target: Seq<u8>,
    msg_seq_num: u32,
    sending_time: u64,
) -> Seq<WireField> {
    seq![
        WireField { tag: 8, value: begin_string() },
        WireField { tag: 9, value: digits(body_len) },
        WireField { tag: 35, value: msg_type },
        WireField { tag: 49, value: sender },
        WireField { tag: 56, value: target },
        WireField { tag: 34, value: digits(msg_seq_num as nat) },
        WireField { tag: 52, value: digits(sending_time as nat) },
    ]
}

/// The header fields that the body length counts, in wire order: 35, 49,
/// 56, 34, 52.
pub open spec fn counted_header_fields(
    msg_type: Seq<u8>,
    sender: Seq<u8>,
    target: Seq<u8>,
    msg_seq_num: u32,
    sending_time: u64,
) -> Seq<WireField> {
    seq![
        WireField { tag: 35, value: msg_type },
        WireField { tag: 49, value: sender },
        WireField { tag: 56, value: target },
        WireField { tag: 34, value: digits(msg_seq_num as nat) },
        WireField { tag: 52, value: digits(sending_time as nat) },
    ]
}

/// The body length that tag 9 declares: the number of bytes behind the SOH
/// of tag 9 and before tag 10, which are the rest of the header and the body.
pub open spec fn declared_length(
    body: Seq<u8>,
    msg_type: Seq<u8>,
    sender: Seq<u8>,
    target: Seq<u8>,
    msg_seq_num: u32,
    sending_time: u64,
) -> nat {
    fields_bytes(counted_header_fields(msg_type, sender, target, msg_seq_num, sending_time)).len()
        + body.len()
}

/// A checksum as it is written: three decimal digits, with leading zeros.
pub open spec fn checksum_digits(sum: int) -> Seq<u8> {
    seq![(48 + sum / 100 % 10) as u8, (48 + sum / 10 % 10) as u8, (48 + sum % 10) as u8]
}

/// The header, with the declared body length in tag 9, followed by `body`.
pub open spec fn message_prefix(
    body: Seq<u8>,
    msg_type: Seq<u8>,
    sender: Seq<u8>,
    target: Seq<u8>,
    msg_seq_num: u32,
    sending_time: u64,
) -> Seq<u8> {
    fields_bytes(
        header_fields(
            declared_length(body, msg_type, sender, target, msg_seq_num, sending_time),
            msg_type,
            sender,
            target,
            msg_seq_num,
            sending_time,
        ),
    ) + body
}

/// A whole message on the wire: the header, the body, and the checksum of
/// both in tag 10.
pub open spec fn framed_message(
    body: Seq<u8>,
    msg_type: Seq<u8>,
    sender: Seq<u8>,
    target: Seq<u8>,
    msg_seq_num: u32,
    sending_time: u64,
) -> Seq<u8> {
    let prefix = message_prefix(body, msg_type, sender, target, msg_seq_num, sending_time);
    prefix + field_bytes(10, checksum_digits(checksum_of(prefix)))
}

/// What the check of a frame's checksum gives. The frame must hold the
/// seven bytes of a trailer at least. The three bytes before its last byte
/// must write, in digits, a number of at most 255, and that number must be
/// the sum modulo 256 of the bytes before the trailer.
pub open spec fn checksum_check(frame: Seq<u8>) -> Result<(), CodecErrorView> {
    let announced = frame.subrange(frame.len() - 4, frame.len() - 1);
    let actual = checksum_of(frame.subrange(0, frame.len() - 7));
    if frame.len() < 7 {
        Err(CodecErrorView::InvalidFormat("Message too short"@))
    } else if !parses_within(announced, 255) {
        Err(CodecErrorView::InvalidValue { tag: 10, value: lossy_text(announced) })
    } else if digits_value(announced) != actual {
        Err(
            CodecErrorView::ChecksumMismatch {
                expected: digits_value(announced) as u8,
                actual: actual as u8,
            },
        )
    } else {
        Ok(())
    }
}

/// Checks the checksum that a frame announces against the one it has.
pub fn verify_checksum(frame: &[u8]) -> (r: Result<(), CodecError>)
    ensures
        with_error_view(r) == checksum_check(frame@),
{
    let len = frame.len();
    if len < TRAILER_LEN {
        return Err(CodecError::InvalidFormat("Message too short".to_owned()));
    }
    let announced = slice_subrange(frame, len - 4, len - 1);
    let actual = calculate_checksum(slice_subrange(frame, 0, len - 7));
    match parse_u32_from_bytes(announced) {
        Ok(value) => {
            if value > 255 {
                Err(CodecError::InvalidValue { tag: 10, value: string_from_utf8_lossy(announced) })
            } else if value != actual as u32 {
                Err(CodecError::ChecksumMismatch { expected: value as u8, actual })
            } else {
                Ok(())
            }
        },
        Err(_) => Err(
            CodecError::InvalidValue { tag: 10, value: string_from_utf8_lossy(announced) },
        ),
    }
}

/// Whether `8=` stands at index `at` of `s`.
pub open spec fn begin_mark_at(s: Seq<u8>, at: int) -> bool {
    0 <= at && at + 2 <= s.len() && s[at] == 56 && s[at + 1] == 61
}

/// Whether `10=` stands at index `at` of `s`.
pub open spec fn trailer_mark_at(s: Seq<u8>, at: int) -> bool {
    0 <= at && at + 3 <= s.len() && s[at] == 49 && s[at + 1] == 48 && s[at + 2] == 61
}

/// The first index at or after `from` at which `8=` stands, or the length of
/// `s` where it stands nowhere.
pub open spec fn find_begin_mark(s: Seq<u8>, from: int) -> int
    decreases s.len() - from,
{
    if from + 2 > s.len() || from < 0 {
        s.len() as int
    } else if begin_mark_at(s, from) {
        from
    } else {
        find_begin_mark(s, from + 1)
    }
}

/// The first index at or after `from` at which `10=` stands, or the length of
/// `s` where it stands nowhere.
pub open spec fn find_trailer_mark(s: Seq<u8>, from: int) -> int
    decreases s.len() - from,
{
    if from + 3 > s.len() || from < 0 {
        s.len() as int
    } else if trailer_mark_at(s, from) {
        from
    } else {
        find_trailer_mark(s, from + 1)
    }
}

/// Where the first frame of `buf` lies, as the index of its first byte and
/// the index after its last: from the first `8=` to the SOH that stands six
/// bytes after the `10=` that follows first. There is none where either mark
/// is absent, where fewer than four bytes follow the `10=`, or where the
/// fourth of them is no SOH.
pub open spec fn frame_of(buf: Seq<u8>) -> Option<(int, int)> {
    let start = find_begin_mark(buf, 0);
    let mark = find_trailer_mark(buf, start);
    if start >= buf.len() {
        None
    } else if mark >= buf.len() {
        None
    } else if mark + 7 > buf.len() {
        None
    } else if buf[mark + 6] != SOH {
        None
    } else {
        Some((start, mark + 7))
    }
}

/// `find_begin_mark` gives the first occurrence: the mark stands nowhere
/// before it.
pub(crate) proof fn lemma_find_begin_mark(s: Seq<u8>, from: int)
    requires
        0 <= from <= s.len(),
    ensures
        from <= find_begin_mark(s, from) <= s.len(),
        find_begin_mark(s, from) < s.len() ==> begin_mark_at(s, find_begin_mark(s, from)),
        forall|j: int| from <= j < find_begin_mark(s, from) ==> !begin_mark_at(s, j),
    decreases s.len() - from,
{
    if from + 2 <= s.len() && !begin_mark_at(s, from) {
        lemma_find_begin_mark(s, from + 1);
    }
}

/// `find_trailer_mark` gives the first occurrence: the mark stands nowhere
/// before it.
pub(crate) proof fn lemma_find_trailer_mark(s: Seq<u8>, from: int)
    requires
        0 <= from <= s.len(),
    ensures
        from <= find_trailer_mark(s, from) <= s.len(),
        find_trailer_mark(s, from) < s.len() ==> trailer_mark_at(s, find_trailer_mark(s, from)),
        forall|j: int| from <= j < find_trailer_mark(s, from) ==> !trailer_mark_at(s, j),
    decreases s.len() - from,
{
    if from + 3 <= s.len() && !trailer_mark_at(s, from) {
        lemma_find_trailer_mark(s, from + 1);
    }
}

/// An index at which `8=` stands, with none before it, is what
/// `find_begin_mark` gives; so is the length where the mark stands nowhere.
pub(crate) proof fn lemma_find_begin_mark_is(s: Seq<u8>, from: int, at: int)
    requires
        0 <= from <= at <= s.len(),
        at < s.len() ==> begin_mark_at(s, at),
        forall|j: int| from <= j < at ==> !begin_mark_at(s, j),
    ensures
        find_begin_mark(s, from) == at,
    decreases at - from,
{
    if from < at {
        if from + 2 <= s.len() {
            lemma_find_begin_mark_is(s, from + 1, at);
        }
    }
}

/// An index at which `10=` stands, with none before it, is what
/// `find_trailer_mark` gives; so is the length where the mark stands nowhere.
pub(crate) proof fn lemma_find_trailer_mark_is(s: Seq<u8>, from: int, at: int)
    requires
        0 <= from <= at <= s.len(),
        at < s.len() ==> trailer_mark_at(s, at),
        forall|j: int| from <= j < at ==> !trailer_mark_at(s, j),
    ensures
        find_trailer_mark(s, from) == at,
    decreases at - from,
{
    if from < at {
        if from + 3 <= s.len() {
            lemma_find_trailer_mark_is(s, from + 1, at);
        }
    }
}

/// Searches `bytes` from `from` on for `8=`.
pub fn find_begin_mark_from(bytes: &[u8], from: usize) -> (at: usize)
    requires
        from <= bytes.len(),
    ensures
        at == find_begin_mark(bytes@, from as int),
        from <= at <= bytes.len(),
{
    let mut i: usize = from;
    while i < bytes.len() && !(bytes.len() - i > 1 && bytes[i] == 56 && bytes[i + 1] == 61)
        invariant
            from <= i <= bytes.len(),
            forall|j: int| from <= j < i ==> !begin_mark_at(bytes@, j),
        decreases bytes.len() - i,
    {
        i = i + 1;
    }
    proof {
        lemma_find_begin_mark_is(bytes@, from as int, i as int);
    }
    i
}

/// Searches `bytes` from `from` on for `10=`.
pub fn find_trailer_mark_from(bytes: &[u8], from: usize) -> (at: usize)
    requires
        from <= bytes.len(),
    ensures
        at == find_trailer_mark(bytes@, from as int),
        from <= at <= bytes.len(),
{
    let mut i: usize = from;
    while i < bytes.len() && !(bytes.len() - i > 2 && bytes[i] == 49 && bytes[i + 1] == 48
        && bytes[i + 2] == 61)
        invariant
            from <= i <= bytes.len(),
            forall|j: int| from <= j < i ==> !trailer_mark_at(bytes@, j),
        decreases bytes.len() - i,
    {
        i = i + 1;
    }
    proof {
        lemma_find_trailer_mark_is(bytes@, from as int, i as int);
    }
    i
}

/// Looks for the first frame of `bytes`.
pub fn locate_frame(bytes: &[u8]) -> (r: Option<(usize, usize)>)
    ensures
        match r {
            Some((start, end)) => frame_of(bytes@) == Some((start as int, end as int)) && start
                + 9 <= end <= bytes.len(),
            None => frame_of(bytes@) is None,
        },
{
    let start = find_begin_mark_from(bytes, 0);
    if start >= bytes.len() {
        return None;
    }
    let mark = find_trailer_mark_from(bytes, start);
    if mark >= bytes.len() {
        return None;
    }
    if bytes.len() - mark < TRAILER_LEN {
        return None;
    }
    if bytes[mark + 6] != SOH {
        return None;
    }
    proof {
        lemma_find_begin_mark(bytes@, 0);
        lemma_find_trailer_mark(bytes@, start as int);
        assert(!trailer_mark_at(bytes@, start as int));
        assert(!trailer_mark_at(bytes@, start + 1));
    }
    Some((start, mark + TRAILER_LEN))
}

} // verus!
