//! Byte-level helpers of the FIX wire format: the checksum, decimal digits,
//! and the `tag=value<SOH>` field layout.

use super::bytes_buf::{buffer_bytes, put_byte};
use super::error::{CodecError, CodecErrorView};
use super::text::{lossy_text, string_from_utf8_lossy};
use bytes::BytesMut;
use vstd::prelude::*;
use vstd::utf8::*;

verus! {

/// The field delimiter, ASCII "start of header".
pub const SOH: u8 = 0x01;

/// The byte `=` that parts a tag from its value.
pub const EQUALS: u8 = 0x3d;

/// The sum of all bytes, as a mathematical integer.
pub open spec fn byte_sum(bytes: Seq<u8>) -> int
    decreases bytes.len(),
{
    if bytes.len() == 0 {
        0
    } else {
        byte_sum(bytes.drop_last()) + bytes.last() as int
    }
}

/// The FIX checksum of `bytes`: their sum modulo 256.
pub open spec fn checksum_of(bytes: Seq<u8>) -> int {
    byte_sum(bytes) % 256
}

/// Computes the modulo-256 sum of `buffer`.
pub fn calculate_checksum(buffer: &[u8]) -> (sum: u8)
    ensures
        sum as int == checksum_of(buffer@),
{
    let mut acc: u8 = 0;
    let mut i: usize = 0;
    while i < buffer.len()
        invariant
            i <= buffer.len(),
            acc as int == checksum_of(buffer@.subrange(0, i as int)),
        decreases buffer.len() - i,
    {
        proof {
            let next = buffer@.subrange(0, i as int + 1);
            assert(next.drop_last() =~= buffer@.subrange(0, i as int));
        }
        acc = acc.wrapping_add(buffer[i]);
        i = i + 1;
    }
    proof {
        assert(buffer@.subrange(0, i as int) =~= buffer@);
    }
    acc
}

/// The first index at or after `from` at which `s` holds `b`, or the length
/// of `s` where it holds none.
pub open spec fn find_byte(s: Seq<u8>, b: u8, from: int) -> int
    decreases s.len() - from,
{
    if from >= s.len() {
        s.len() as int
    } else if s[from] == b {
        from
    } else {
        find_byte(s, b, from + 1)
    }
}

/// `find_byte` gives the first occurrence: nothing before it matches.
pub proof fn lemma_find_byte(s: Seq<u8>, b: u8, from: int)
    requires
        0 <= from <= s.len(),
    ensures
        from <= find_byte(s, b, from) <= s.len(),
        find_byte(s, b, from) < s.len() ==> s[find_byte(s, b, from)] == b,
        forall|j: int| from <= j < find_byte(s, b, from) ==> s[j] != b,
    decreases s.len() - from,
{
    if from < s.len() && s[from] != b {
        lemma_find_byte(s, b, from + 1);
    }
}

/// An index that holds `b` with nothing matching before it is what `find_byte` gives.
pub(crate) proof fn lemma_find_byte_is(s: Seq<u8>, b: u8, from: int, at: int)
    requires
        0 <= from <= at <= s.len(),
        at < s.len() ==> s[at] == b,
        forall|j: int| from <= j < at ==> s[j] != b,
    ensures
        find_byte(s, b, from) == at,
    decreases at - from,
{
    if from < at {
        lemma_find_byte_is(s, b, from + 1, at);
    }
}

/// Searches `bytes` from `from` on for the byte `b`.
pub fn find_byte_from(bytes: &[u8], b: u8, from: usize) -> (at: usize)
    requires
        from <= bytes.len(),
    ensures
        at == find_byte(bytes@, b, from as int),
        from <= at <= bytes.len(),
{
    let mut i: usize = from;
    while i < bytes.len() && bytes[i] != b
        invariant
            from <= i <= bytes.len(),
            forall|j: int| from <= j < i ==> bytes@[j] != b,
        decreases bytes.len() - i,
    {
        i = i + 1;
    }
    proof {
        lemma_find_byte_is(bytes@, b, from as int, i as int);
    }
    i
}

/// Whether `b` is one of the ASCII digits `0` to `9`.
pub open spec fn is_digit(b: u8) -> bool {
    48 <= b <= 57
}

/// Whether every byte of `s` is an ASCII digit.
pub open spec fn all_digits(s: Seq<u8>) -> bool {
    forall|i: int| 0 <= i < s.len() ==> is_digit(#[trigger] s[i])
}

/// What the byte `b` counts for as a decimal digit.
pub open spec fn digit_value(b: u8) -> nat {
    if b >= 48 {
        (b - 48) as nat
    } else {
        0
    }
}

/// The number that the decimal digits `s` write; the empty sequence writes 0.
pub open spec fn digits_value(s: Seq<u8>) -> nat
    decreases s.len(),
{
    if s.len() == 0 {
        0
    } else {
        digits_value(s.drop_last()) * 10 + digit_value(s.last())
    }
}

/// The decimal digits of `n` in ASCII, without sign and without leading zeros.
pub open spec fn digits(n: nat) -> Seq<u8>
    decreases n,
{
    if n < 10 {
        seq![(48 + n) as u8]
    } else {
        digits(n / 10).push((48 + n % 10) as u8)
    }
}

/// The wire form of one field: the tag in decimal, `=`, the value, and SOH.
pub open spec fn field_bytes(tag: nat, value: Seq<u8>) -> Seq<u8> {
    digits(tag) + seq![EQUALS] + value + seq![SOH]
}

/// The digits of a number are digits, at least one, and write that number.
pub proof fn lemma_digits(n: nat)
    ensures
        digits(n).len() >= 1,
        all_digits(digits(n)),
        digits_value(digits(n)) == n,
    decreases n,
{
    if n < 10 {
        assert(digits(n).drop_last() =~= Seq::<u8>::empty());
        assert(digits_value(digits(n).drop_last()) == 0);
    } else {
        lemma_digits(n / 10);
        assert(digits(n).drop_last() =~= digits(n / 10));
    }
}

/// The number written never shrinks when more digits follow.
pub(crate) proof fn lemma_digits_value_prefix(s: Seq<u8>, k: int)
    requires
        0 <= k <= s.len(),
    ensures
        digits_value(s.subrange(0, k)) <= digits_value(s),
    decreases s.len(),
{
    if k == s.len() {
        assert(s.subrange(0, k) =~= s);
    } else {
        lemma_digits_value_prefix(s.drop_last(), k);
        assert(s.drop_last().subrange(0, k) =~= s.subrange(0, k));
    }
}

/// Renders `n` in decimal ASCII.
pub fn format_u64(n: u64) -> (out: Vec<u8>)
    ensures
        out@ == digits(n as nat),
{
    let mut out: Vec<u8> = Vec::new();
    let mut rest: u64 = n;
    while rest >= 10
        invariant
            digits(n as nat) == digits(rest as nat) + out@,
        decreases rest,
    {
        let d: u8 = (rest % 10) as u8;
        let ghost before = out@;
        out.insert(0, 48 + d);
        proof {
            assert(out@ =~= seq![(48 + d) as u8] + before);
            assert(digits(rest as nat) + before =~= digits((rest / 10) as nat) + out@);
        }
        rest = rest / 10;
    }
    let d: u8 = rest as u8;
    out.insert(0, 48 + d);
    out
}

/// One field of a message: its tag and the bytes of its value.
pub struct WireField {
    pub tag: u32,
    pub value: Seq<u8>,
}

/// The wire form of a list of fields: each field's bytes, one after the other.
pub open spec fn fields_bytes(fields: Seq<WireField>) -> Seq<u8>
    decreases fields.len(),
{
    if fields.len() == 0 {
        Seq::empty()
    } else {
        fields_bytes(fields.drop_last()) + field_bytes(
            fields.last().tag as nat,
            fields.last().value,
        )
    }
}

/// The wire form of two lists in a row is the two wire forms in a row.
pub(crate) proof fn lemma_fields_bytes_concat(a: Seq<WireField>, b: Seq<WireField>)
    ensures
        fields_bytes(a + b) == fields_bytes(a) + fields_bytes(b),
    decreases b.len(),
{
    if b.len() == 0 {
        assert(a + b =~= a);
        assert(fields_bytes(a) + fields_bytes(b) =~= fields_bytes(a));
    } else {
        lemma_fields_bytes_concat(a, b.drop_last());
        assert((a + b).drop_last() =~= a + b.drop_last());
        assert((a + b).last() == b.last());
        assert(fields_bytes(a + b) =~= fields_bytes(a) + fields_bytes(b));
    }
}

/// The wire form of a single field.
pub(crate) proof fn lemma_fields_bytes_one(f: WireField)
    ensures
        fields_bytes(seq![f]) == field_bytes(f.tag as nat, f.value),
{
    let one = seq![f];
    assert(one.drop_last() =~= Seq::<WireField>::empty());
    assert(fields_bytes(one.drop_last()) =~= Seq::<u8>::empty());
    assert(one.last() == f);
    assert(fields_bytes(one) =~= field_bytes(f.tag as nat, f.value));
}

/// Whether `s` is a run of ASCII digits that writes a number of at most `max`.
pub open spec fn parses_within(s: Seq<u8>, max: nat) -> bool {
    all_digits(s) && digits_value(s) <= max
}

/// The error that a failed integer parse of `bytes` reports.
pub open spec fn invalid_number(bytes: Seq<u8>) -> CodecErrorView {
    CodecErrorView::InvalidValue { tag: 0, value: lossy_text(bytes) }
}

/// Reads an unsigned decimal number of at most 64 bits. Any byte that is no
/// digit, and a number that does not fit, give `InvalidValue`.
pub fn parse_u64_from_bytes(bytes: &[u8]) -> (r: Result<u64, CodecError>)
    ensures
        match r {
            Ok(v) => parses_within(bytes@, u64::MAX as nat) && v == digits_value(bytes@),
            Err(e) => !parses_within(bytes@, u64::MAX as nat) && e@ == invalid_number(bytes@),
        },
{
    let mut value: u64 = 0;
    let mut i: usize = 0;
    while i < bytes.len()
        invariant
            i <= bytes.len(),
            all_digits(bytes@.subrange(0, i as int)),
            value == digits_value(bytes@.subrange(0, i as int)),
        decreases bytes.len() - i,
    {
        let byte = bytes[i];
        proof {
            assert(bytes@.subrange(0, i + 1).drop_last() =~= bytes@.subrange(0, i as int));
            lemma_digits_value_prefix(bytes@, i + 1);
        }
        if byte < 48 || byte > 57 {
            assert(!is_digit(bytes@[i as int]));
            return Err(CodecError::InvalidValue { tag: 0, value: string_from_utf8_lossy(bytes) });
        }
        let digit: u64 = (byte - 48) as u64;
        if value > (u64::MAX - digit) / 10 {
            return Err(CodecError::InvalidValue { tag: 0, value: string_from_utf8_lossy(bytes) });
        }
        value = value * 10 + digit;
        i = i + 1;
    }
    proof {
        assert(bytes@.subrange(0, i as int) =~= bytes@);
    }
    Ok(value)
}

/// Reads an unsigned decimal number of at most 32 bits. Any byte that is no
/// digit, and a number that does not fit, give `InvalidValue`.
pub fn parse_u32_from_bytes(bytes: &[u8]) -> (r: Result<u32, CodecError>)
    ensures
        match r {
            Ok(v) => parses_within(bytes@, u32::MAX as nat) && v == digits_value(bytes@),
            Err(e) => !parses_within(bytes@, u32::MAX as nat) && e@ == invalid_number(bytes@),
        },
{
    match parse_u64_from_bytes(bytes) {
        Ok(v) => {
            if v > u32::MAX as u64 {
                Err(CodecError::InvalidValue { tag: 0, value: string_from_utf8_lossy(bytes) })
            } else {
                Ok(v as u32)
            }
        },
        Err(e) => Err(e),
    }
}

/// How a scan for fields ended.
pub enum ScanEnd {
    /// Every byte belongs to a field.
    Complete,
    /// The bytes left hold no `=`.
    MissingEquals,
    /// The bytes before the `=` are no tag: they are kept.
    BadTag(Seq<u8>),
    /// The bytes after the `=` hold no SOH.
    MissingSoh,
    /// One more field was found than there was room for.
    TooManyFields,
}

/// The fields that a scan found, in message order, and how it ended.
pub struct Scan {
    pub fields: Seq<WireField>,
    pub end: ScanEnd,
}

/// Scans `data` for fields, with room for `room` of them: each field runs
/// from its tag over the first `=` to the next SOH.
pub open spec fn scan_fields(data: Seq<u8>, room: nat) -> Scan
    decreases data.len(),
{
    if data.len() == 0 {
        Scan { fields: Seq::empty(), end: ScanEnd::Complete }
    } else {
        let eq = find_byte(data, EQUALS, 0);
        let tag = data.subrange(0, eq);
        let soh = find_byte(data, SOH, eq + 1);
        if eq >= data.len() {
            Scan { fields: Seq::empty(), end: ScanEnd::MissingEquals }
        } else if !parses_within(tag, u32::MAX as nat) {
            Scan { fields: Seq::empty(), end: ScanEnd::BadTag(tag) }
        } else if soh >= data.len() {
            Scan { fields: Seq::empty(), end: ScanEnd::MissingSoh }
        } else if room == 0 {
            Scan { fields: Seq::empty(), end: ScanEnd::TooManyFields }
        } else {
            proof {
                lemma_find_byte(data, EQUALS, 0);
                lemma_find_byte(data, SOH, eq + 1);
            }
            let rest = scan_fields(data.subrange(soh + 1, data.len() as int), (room - 1) as nat);
            Scan {
                fields: seq![
                    WireField { tag: digits_value(tag) as u32, value: data.subrange(eq + 1, soh) },
                ] + rest.fields,
                end: rest.end,
            }
        }
    }
}

/// Searching a suffix is searching the whole from where the suffix starts.
pub(crate) proof fn lemma_find_byte_suffix(s: Seq<u8>, b: u8, start: int, from: int)
    requires
        0 <= start <= from <= s.len(),
    ensures
        find_byte(s.subrange(start, s.len() as int), b, from - start) == find_byte(s, b, from)
            - start,
{
    let suffix = s.subrange(start, s.len() as int);
    lemma_find_byte(s, b, from);
    let at = find_byte(s, b, from);
    assert forall|j: int| from - start <= j < at - start implies suffix[j] != b by {
        assert(suffix[j] == s[j + start]);
    }
    lemma_find_byte_is(suffix, b, from - start, at - start);
}

/// Appends the field `tag=value<SOH>` to `buf`.
pub fn append_tag_value(buf: &mut BytesMut, tag: u32, value: &[u8])
    ensures
        buffer_bytes(*final(buf)) == buffer_bytes(*old(buf)) + field_bytes(tag as nat, value@),
{
    let tag_digits = format_u64(tag as u64);
    buf.extend_from_slice(tag_digits.as_slice());
    put_byte(buf, EQUALS);
    buf.extend_from_slice(value);
    put_byte(buf, SOH);
    proof {
        assert(buffer_bytes(*buf) =~= buffer_bytes(*old(buf)) + field_bytes(tag as nat, value@));
    }
}

/// Appends a field whose value is `value` in decimal.
pub fn append_tag_u32(buf: &mut BytesMut, tag: u32, value: u32)
    ensures
        buffer_bytes(*final(buf)) == buffer_bytes(*old(buf)) + field_bytes(
            tag as nat,
            digits(value as nat),
        ),
{
    let value_digits = format_u64(value as u64);
    append_tag_value(buf, tag, value_digits.as_slice());
}

/// Appends a field whose value is the 64-bit `value` in decimal.
pub fn append_tag_u64(buf: &mut BytesMut, tag: u32, value: u64)
    ensures
        buffer_bytes(*final(buf)) == buffer_bytes(*old(buf)) + field_bytes(
            tag as nat,
            digits(value as nat),
        ),
{
    let value_digits = format_u64(value);
    append_tag_value(buf, tag, value_digits.as_slice());
}

/// Appends a field whose value is the single byte `value`.
pub fn append_tag_char(buf: &mut BytesMut, tag: u32, value: u8)
    ensures
        buffer_bytes(*final(buf)) == buffer_bytes(*old(buf)) + field_bytes(tag as nat, seq![value]),
{
    let value_buf: [u8; 1] = [value];
    append_tag_value(buf, tag, value_buf.as_slice());
    proof {
        assert(value_buf@ =~= seq![value]);
    }
}

/// The text whose characters are the bytes of `bytes`, one for one.
pub open spec fn ascii_text(bytes: Seq<u8>) -> Seq<char> {
    Seq::new(bytes.len(), |i: int| bytes[i] as char)
}

/// Bytes below 128 are UTF-8, and encode the text that holds them as
/// characters.
pub(crate) proof fn lemma_ascii_bytes(bytes: Seq<u8>)
    requires
        forall|i: int| 0 <= i < bytes.len() ==> bytes[i] < 128,
    ensures
        valid_utf8(bytes),
        decode_utf8(bytes) == ascii_text(bytes),
        encode_utf8(ascii_text(bytes)) == bytes,
{
    let text = ascii_text(bytes);
    assert(is_ascii_chars(text));
    is_ascii_chars_encode_utf8(text);
    assert(encode_utf8(text) =~= bytes);
    encode_utf8_valid_utf8(text);
    encode_utf8_decode_utf8(text);
}

/// Renders `n` in decimal, as a string.
pub fn u64_to_string(n: u64) -> (text: String)
    ensures
        text@ == ascii_text(digits(n as nat)),
{
    let bytes = format_u64(n);
    proof {
        lemma_digits(n as nat);
        assert forall|i: int| 0 <= i < bytes@.len() implies bytes@[i] < 128 by {
            assert(is_digit(bytes@[i]));
        }
        lemma_ascii_bytes(bytes@);
    }
    match String::from_utf8(bytes) {
        Ok(text) => text,
        // digits are UTF-8, so this arm is never taken
        Err(_) => String::new(),
    }
}

} // verus!
