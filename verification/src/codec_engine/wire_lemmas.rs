//! Facts about the wire form of field lists: that a scan reads back the
//! fields that were written, and that the trailer mark `10=` stands nowhere
//! in fields that do not hold it.

use super::framing::{find_trailer_mark_from, lemma_find_trailer_mark, trailer_mark_at};
use super::wire::{
    digits, field_bytes, fields_bytes, find_byte_from, is_digit, lemma_digits,
    lemma_fields_bytes_concat, lemma_fields_bytes_one, lemma_find_byte, lemma_find_byte_is,
    scan_fields, WireField, EQUALS, SOH,
};
use vstd::prelude::*;

verus! {

/// Whether `10=` stands somewhere in `s`.
pub open spec fn has_trailer_mark(s: Seq<u8>) -> bool {
    exists|i: int| trailer_mark_at(s, i)
}

/// Whether a value can stand in a field without breaking the frame around
/// it: it holds no SOH and no `10=`.
pub open spec fn field_safe(value: Seq<u8>) -> bool {
    !value.contains(SOH) && !has_trailer_mark(value)
}

/// Tells whether `value` can stand in a field without breaking the frame
/// around it.
pub fn is_field_safe(value: &[u8]) -> (safe: bool)
    ensures
        safe == field_safe(value@),
{
    let soh = find_byte_from(value, SOH, 0);
    let mark = find_trailer_mark_from(value, 0);
    proof {
        lemma_find_byte(value@, SOH, 0);
        lemma_find_trailer_mark(value@, 0);
        if soh < value.len() {
            assert(value@.contains(value@[soh as int]));
        } else {
            assert forall|i: int| 0 <= i < value@.len() implies value@[i] != SOH by {}
        }
        if mark < value.len() {
            assert(trailer_mark_at(value@, mark as int));
        } else {
            assert forall|i: int| !trailer_mark_at(value@, i) by {}
        }
    }
    soh == value.len() && mark == value.len()
}

/// Whether a field can stand before the trailer: its tag does not end in
/// the digits `10`, and its value is safe.
pub open spec fn field_clean(f: WireField) -> bool {
    f.tag % 100 != 10 && field_safe(f.value)
}

/// Whether every field of the list can stand before the trailer.
pub open spec fn fields_clean(fields: Seq<WireField>) -> bool {
    forall|i: int| 0 <= i < fields.len() ==> field_clean(#[trigger] fields[i])
}

/// The last digit of a number is its remainder by ten, and the digit before
/// it, where there is one, is the remainder of its tenth.
pub(crate) proof fn lemma_digits_end(n: nat)
    ensures
        digits(n).len() >= 1,
        digits(n).last() == (48 + n % 10) as u8,
        n < 10 ==> digits(n).len() == 1,
        n >= 10 ==> digits(n).len() >= 2 && digits(n)[digits(n).len() - 2] == (48 + (n / 10)
            % 10) as u8,
    decreases n,
{
    lemma_digits(n);
    if n >= 10 {
        lemma_digits_end(n / 10);
        assert(digits(n) == digits(n / 10).push((48 + n % 10) as u8));
    }
}

/// The wire form of a field, byte by byte: the digits of the tag, `=`, the
/// value, SOH.
pub(crate) proof fn lemma_field_bytes_layout(tag: nat, value: Seq<u8>)
    ensures
        field_bytes(tag, value).len() == digits(tag).len() + value.len() + 2,
        forall|j: int|
            0 <= j < digits(tag).len() ==> #[trigger] field_bytes(tag, value)[j] == digits(tag)[j],
        field_bytes(tag, value)[digits(tag).len() as int] == EQUALS,
        forall|j: int|
            0 <= j < value.len() ==> #[trigger] field_bytes(tag, value)[digits(tag).len() + 1 + j]
                == value[j],
        field_bytes(tag, value)[(digits(tag).len() + 1 + value.len()) as int] == SOH,
        field_bytes(tag, value).last() == SOH,
{
}

/// `10=` stands nowhere in the wire form of a clean field.
pub(crate) proof fn lemma_no_mark_in_field(f: WireField)
    requires
        field_clean(f),
    ensures
        !has_trailer_mark(field_bytes(f.tag as nat, f.value)),
{
    let tag = f.tag as nat;
    let d = digits(tag);
    let k = d.len() as int;
    let bytes = field_bytes(tag, f.value);
    lemma_digits(tag);
    lemma_digits_end(tag);
    lemma_field_bytes_layout(tag, f.value);
    assert forall|j: int| !trailer_mark_at(bytes, j) by {
        if trailer_mark_at(bytes, j) {
            let e = j + 2;
            if e < k {
                assert(bytes[e] == d[e]);
                assert(is_digit(d[e]));
            } else if e == k {
                if k >= 2 {
                    assert(bytes[j] == d[k - 2]);
                    assert(bytes[j + 1] == d[k - 1]);
                    assert(tag % 10 == 0);
                    assert((tag / 10) % 10 == 1);
                    assert(tag % 100 == 10);
                }
            } else if e == k + 1 + f.value.len() {
            } else {
                let p = e - (k + 1);
                assert(bytes[k + 1 + p] == f.value[p]);
                if p >= 2 {
                    assert(bytes[k + 1 + (p - 2)] == f.value[p - 2]);
                    assert(bytes[k + 1 + (p - 1)] == f.value[p - 1]);
                    assert(trailer_mark_at(f.value, p - 2));
                } else if p == 1 {
                    assert(bytes[j] == EQUALS);
                } else {
                    assert(bytes[j + 1] == EQUALS);
                }
            }
        }
    }
}

/// The wire form of a list that is not empty ends with SOH.
pub(crate) proof fn lemma_fields_bytes_end(fields: Seq<WireField>)
    requires
        fields.len() > 0,
    ensures
        fields_bytes(fields).len() >= 3,
        fields_bytes(fields).last() == SOH,
{
    let f = fields.last();
    lemma_field_bytes_layout(f.tag as nat, f.value);
    lemma_digits(f.tag as nat);
}

/// A mark in two sequences in a row, the first of which is empty or ends
/// with SOH, stands in one of the two.
pub(crate) proof fn lemma_mark_in_concat(a: Seq<u8>, b: Seq<u8>, at: int)
    requires
        a.len() == 0 || a.last() == SOH,
        trailer_mark_at(a + b, at),
    ensures
        trailer_mark_at(a, at) || trailer_mark_at(b, at - a.len()),
{
    let s = a + b;
    if at + 3 <= a.len() {
        assert(s[at] == a[at]);
        assert(s[at + 1] == a[at + 1]);
        assert(s[at + 2] == a[at + 2]);
    } else if at >= a.len() {
        assert(s[at] == b[at - a.len()]);
        assert(s[at + 1] == b[at + 1 - a.len()]);
        assert(s[at + 2] == b[at + 2 - a.len()]);
    } else {
        let last = a.len() - 1;
        assert(s[last] == a[last]);
    }
}

/// `10=` stands nowhere in the wire form of clean fields.
pub(crate) proof fn lemma_no_mark_in_fields(fields: Seq<WireField>)
    requires
        fields_clean(fields),
    ensures
        !has_trailer_mark(fields_bytes(fields)),
    decreases fields.len(),
{
    if fields.len() > 0 {
        let init = fields.drop_last();
        let f = fields.last();
        lemma_no_mark_in_fields(init);
        lemma_no_mark_in_field(f);
        let a = fields_bytes(init);
        let b = field_bytes(f.tag as nat, f.value);
        if init.len() > 0 {
            lemma_fields_bytes_end(init);
        }
        assert forall|j: int| !trailer_mark_at(a + b, j) by {
            if trailer_mark_at(a + b, j) {
                lemma_mark_in_concat(a, b, j);
            }
        }
    }
}

/// A scan reads the first field of what was written and goes on behind it.
pub(crate) proof fn lemma_scan_one(f: WireField, rest: Seq<u8>, room: nat)
    requires
        !f.value.contains(SOH),
        room > 0,
    ensures
        scan_fields(field_bytes(f.tag as nat, f.value) + rest, room).fields == seq![f]
            + scan_fields(rest, (room - 1) as nat).fields,
        scan_fields(field_bytes(f.tag as nat, f.value) + rest, room).end == scan_fields(
            rest,
            (room - 1) as nat,
        ).end,
{
    let tag = f.tag as nat;
    let d = digits(tag);
    let k = d.len() as int;
    let field = field_bytes(tag, f.value);
    let data = field + rest;
    lemma_digits(tag);
    lemma_field_bytes_layout(tag, f.value);
    assert forall|j: int| 0 <= j < field.len() implies data[j] == field[j] by {}
    assert forall|j: int| 0 <= j < k implies data[j] != EQUALS by {
        assert(data[j] == field[j]);
        assert(field[j] == d[j]);
        assert(is_digit(d[j]));
    }
    assert(data[k] == field[k]);
    lemma_find_byte_is(data, EQUALS, 0, k);
    let soh = k + 1 + f.value.len();
    assert forall|j: int| k + 1 <= j < soh implies data[j] != SOH by {
        assert(data[j] == field[k + 1 + (j - k - 1)]);
        assert(field[k + 1 + (j - k - 1)] == f.value[j - k - 1]);
        assert(f.value.contains(f.value[j - k - 1]));
    }
    assert(data[soh] == field[soh]);
    lemma_find_byte_is(data, SOH, k + 1, soh);
    assert(data.subrange(0, k) =~= d);
    assert(data.subrange(k + 1, soh) =~= f.value);
    assert(data.subrange(soh + 1, data.len() as int) =~= rest);
}

/// A scan reads back the fields that were written, and goes on behind them
/// with the room that is left.
pub proof fn lemma_scan_written(fields: Seq<WireField>, rest: Seq<u8>, room: nat)
    requires
        forall|i: int| 0 <= i < fields.len() ==> !(#[trigger] fields[i]).value.contains(SOH),
        fields.len() <= room,
    ensures
        scan_fields(fields_bytes(fields) + rest, room).fields == fields + scan_fields(
            rest,
            (room - fields.len()) as nat,
        ).fields,
        scan_fields(fields_bytes(fields) + rest, room).end == scan_fields(
            rest,
            (room - fields.len()) as nat,
        ).end,
    decreases fields.len(),
{
    if fields.len() == 0 {
        assert(fields_bytes(fields) + rest =~= rest);
        assert(fields + scan_fields(rest, room).fields =~= scan_fields(rest, room).fields);
    } else {
        let f = fields[0];
        let tail = fields.drop_first();
        assert(fields =~= seq![f] + tail);
        lemma_fields_bytes_concat(seq![f], tail);
        lemma_fields_bytes_one(f);
        let first = field_bytes(f.tag as nat, f.value);
        assert(fields_bytes(fields) + rest =~= first + (fields_bytes(tail) + rest));
        lemma_scan_one(f, fields_bytes(tail) + rest, room);
        assert forall|i: int| 0 <= i < tail.len() implies !(#[trigger] tail[i]).value.contains(
            SOH,
        ) by {
            assert(tail[i] == fields[i + 1]);
        }
        lemma_scan_written(tail, rest, (room - 1) as nat);
        let behind = scan_fields(rest, (room - fields.len()) as nat);
        assert(seq![f] + (tail + behind.fields) =~= fields + behind.fields);
    }
}

} // verus!
