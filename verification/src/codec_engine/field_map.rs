//! The field map: a fixed-capacity index of the fields of one raw message.

use super::error::{CodecError, CodecErrorView};
use super::wire::{
    digits_value, find_byte_from, invalid_number, lemma_find_byte, lemma_find_byte_suffix,
    parse_u32_from_bytes, parse_u64_from_bytes, parses_within, scan_fields, ScanEnd, WireField,
    EQUALS, SOH,
};
use crate::decimal::{parsed_decimal, Decimal, DecimalView};
use vstd::prelude::*;
use vstd::slice::{slice_subrange, slice_to_vec};
use vstd::utf8::*;

verus! {

/// The number of fields that a field map has room for.
pub const MAX_FIX_FIELDS: usize = 64;

/// The number of bytes of raw message that a field map has room for.
pub const MAX_MESSAGE_SIZE: usize = 4096;

/// Where one field's value lies in the raw bytes, and the field's tag.
pub struct FieldSlot {
    pub tag: u32,
    pub start: int,
    pub len: int,
}

/// A raw buffer before anything is loaded: 4096 zero bytes.
pub open spec fn zeroed_buffer() -> Seq<u8> {
    Seq::new(4096, |i: int| 0u8)
}

/// The fields that `slots` cut out of `buffer`.
pub open spec fn slot_fields(buffer: Seq<u8>, slots: Seq<FieldSlot>) -> Seq<WireField> {
    Seq::new(
        slots.len(),
        |i: int|
            WireField {
                tag: slots[i].tag,
                value: buffer.subrange(slots[i].start, slots[i].start + slots[i].len),
            },
    )
}

/// The first index at or after `from` whose field has the tag `tag`, or the
/// length of `fields` where none has.
pub open spec fn find_tag(fields: Seq<WireField>, tag: u32, from: int) -> int
    decreases fields.len() - from,
{
    if from >= fields.len() {
        fields.len() as int
    } else if fields[from].tag == tag {
        from
    } else {
        find_tag(fields, tag, from + 1)
    }
}

/// The value of the first field with the tag `tag`, if there is one.
pub open spec fn lookup(fields: Seq<WireField>, tag: u32) -> Option<Seq<u8>> {
    if find_tag(fields, tag, 0) < fields.len() {
        Some(fields[find_tag(fields, tag, 0)].value)
    } else {
        None
    }
}

/// An index whose field has the tag, with no such field before it, is what
/// `find_tag` gives.
pub(crate) proof fn lemma_find_tag_is(fields: Seq<WireField>, tag: u32, from: int, at: int)
    requires
        0 <= from <= at <= fields.len(),
        at < fields.len() ==> fields[at].tag == tag,
        forall|j: int| from <= j < at ==> fields[j].tag != tag,
    ensures
        find_tag(fields, tag, from) == at,
    decreases at - from,
{
    if from < at {
        lemma_find_tag_is(fields, tag, from + 1, at);
    }
}

/// The text of the first field with the tag `tag`: absent, the text that its
/// bytes encode, or the error for bytes that are not UTF-8.
pub open spec fn field_str(fields: Seq<WireField>, tag: u32) -> Result<
    Option<Seq<char>>,
    CodecErrorView,
> {
    match lookup(fields, tag) {
        None => Ok(None),
        Some(bytes) => if valid_utf8(bytes) {
            Ok(Some(decode_utf8(bytes)))
        } else {
            Err(CodecErrorView::StringUtf8)
        },
    }
}

/// The number of at most 32 bits in the first field with the tag `tag`.
pub open spec fn field_u32(fields: Seq<WireField>, tag: u32) -> Result<
    Option<u32>,
    CodecErrorView,
> {
    match lookup(fields, tag) {
        None => Ok(None),
        Some(bytes) => if parses_within(bytes, u32::MAX as nat) {
            Ok(Some(digits_value(bytes) as u32))
        } else {
            Err(invalid_number(bytes))
        },
    }
}

/// The number of at most 64 bits in the first field with the tag `tag`.
pub open spec fn field_u64(fields: Seq<WireField>, tag: u32) -> Result<
    Option<u64>,
    CodecErrorView,
> {
    match lookup(fields, tag) {
        None => Ok(None),
        Some(bytes) => if parses_within(bytes, u64::MAX as nat) {
            Ok(Some(digits_value(bytes) as u64))
        } else {
            Err(invalid_number(bytes))
        },
    }
}

/// The decimal number in the first field with the tag `tag`.
pub open spec fn field_decimal(fields: Seq<WireField>, tag: u32) -> Result<
    Option<DecimalView>,
    CodecErrorView,
> {
    match lookup(fields, tag) {
        None => Ok(None),
        Some(bytes) => if !valid_utf8(bytes) {
            Err(CodecErrorView::StrUtf8)
        } else {
            match parsed_decimal(decode_utf8(bytes)) {
                Some(d) => Ok(Some(d)),
                None => Err(CodecErrorView::ParseDecimal),
            }
        },
    }
}

/// The result of reading a text field, with the text and the error taken by
/// their views.
pub open spec fn text_result_view(r: Result<Option<String>, CodecError>) -> Result<
    Option<Seq<char>>,
    CodecErrorView,
> {
    match r {
        Ok(Some(s)) => Ok(Some(s@)),
        Ok(None) => Ok(None),
        Err(e) => Err(e@),
    }
}

/// The result of reading a decimal field, with the number and the error
/// taken by their views.
pub open spec fn decimal_result_view(r: Result<Option<Decimal>, CodecError>) -> Result<
    Option<DecimalView>,
    CodecErrorView,
> {
    match r {
        Ok(Some(d)) => Ok(Some(d@)),
        Ok(None) => Ok(None),
        Err(e) => Err(e@),
    }
}

/// What a field scan that ended in `end` reports.
pub open spec fn scan_outcome(end: ScanEnd) -> Result<(), CodecErrorView> {
    match end {
        ScanEnd::Complete => Ok(()),
        ScanEnd::MissingEquals => Err(CodecErrorView::IncompleteMessage),
        ScanEnd::MissingSoh => Err(CodecErrorView::IncompleteMessage),
        ScanEnd::BadTag(tag) => Err(invalid_number(tag)),
        ScanEnd::TooManyFields => Err(CodecErrorView::InvalidFormat("Too many fields"@)),
    }
}

/// A result with its error taken by its view.
pub open spec fn with_error_view<T>(r: Result<T, CodecError>) -> Result<T, CodecErrorView> {
    match r {
        Ok(v) => Ok(v),
        Err(e) => Err(e@),
    }
}

/// An index of the fields of one raw message of up to 4096 bytes, with room
/// for 64 fields, kept in message order.
#[derive(Debug)]
pub struct FixFieldMap {
    fields: [(u32, usize, usize); 64],
    field_count: usize,
    data: [u8; 4096],
    data_length: usize,
}

impl Clone for FixFieldMap {
    fn clone(&self) -> (copy: FixFieldMap)
        ensures
            copy.buffer() == self.buffer(),
            copy.data() == self.data(),
            copy.slots() == self.slots(),
    {
        proof {
            use_type_invariant(self);
        }
        FixFieldMap {
            fields: self.fields,
            field_count: self.field_count,
            data: self.data,
            data_length: self.data_length,
        }
    }
}

impl FixFieldMap {
    /// What holds of every field map: at most 64 fields are indexed, at most
    /// 4096 bytes are loaded, and every indexed value lies within the buffer.
    #[verifier::type_invariant]
    pub closed spec fn well_formed(self) -> bool {
        &&& self.field_count <= 64
        &&& self.data_length <= 4096
        &&& forall|i: int|
            0 <= i < self.field_count ==> (#[trigger] self.fields@[i]).1 + self.fields@[i].2
                <= 4096
    }

    /// All 4096 bytes of the raw buffer, loaded or not.
    pub closed spec fn buffer(&self) -> Seq<u8> {
        self.data@
    }

    /// The raw message that is loaded.
    pub closed spec fn data(&self) -> Seq<u8> {
        self.data@.subrange(0, self.data_length as int)
    }

    /// The slots of the fields that are indexed, in message order.
    pub closed spec fn slots(&self) -> Seq<FieldSlot> {
        Seq::new(
            self.field_count as nat,
            |i: int|
                FieldSlot {
                    tag: self.fields@[i].0,
                    start: self.fields@[i].1 as int,
                    len: self.fields@[i].2 as int,
                },
        )
    }

    /// The fields that are indexed, in message order.
    pub open spec fn fields(&self) -> Seq<WireField> {
        slot_fields(self.buffer(), self.slots())
    }

    /// An empty map: no message loaded, no field indexed, and every byte of
    /// the raw buffer zero.
    pub fn new() -> (map: FixFieldMap)
        ensures
            map.buffer() == zeroed_buffer(),
            map.data() == Seq::<u8>::empty(),
            map.slots() == Seq::<FieldSlot>::empty(),
            map.fields() == Seq::<WireField>::empty(),
    {
        let map = FixFieldMap {
            fields: [(0u32, 0usize, 0usize); 64],
            field_count: 0,
            data: [0u8; 4096],
            data_length: 0,
        };
        proof {
            assert(map.buffer() =~= zeroed_buffer());
            assert(map.data() =~= Seq::<u8>::empty());
            assert(map.slots() =~= Seq::<FieldSlot>::empty());
            assert(map.fields() =~= Seq::<WireField>::empty());
        }
        map
    }

    /// Forgets the loaded message and the index.
    pub fn clear(&mut self)
        ensures
            final(self).buffer() == old(self).buffer(),
            final(self).data() == Seq::<u8>::empty(),
            final(self).slots() == Seq::<FieldSlot>::empty(),
            final(self).fields() == Seq::<WireField>::empty(),
    {
        proof {
            use_type_invariant(&*self);
        }
        self.field_count = 0;
        self.data_length = 0;
        proof {
            assert(self.data() =~= Seq::<u8>::empty());
            assert(self.slots() =~= Seq::<FieldSlot>::empty());
            assert(self.fields() =~= Seq::<WireField>::empty());
        }
    }

    /// Loads a raw message. One of more than 4096 bytes is refused and
    /// changes nothing; the index is left as it was.
    pub fn set_data(&mut self, data: &[u8]) -> (r: Result<(), CodecError>)
        ensures
            final(self).slots() == old(self).slots(),
            data@.len() <= 4096 ==> r is Ok && final(self).data() == data@ && final(self).buffer()
                == data@ + old(self).buffer().subrange(data@.len() as int, 4096),
            data@.len() > 4096 ==> with_error_view(r) == Err::<(), CodecErrorView>(
                CodecErrorView::InvalidFormat("Message too large"@),
            ) && final(self).data() == old(self).data() && final(self).buffer()
                == old(self).buffer(),
    {
        if data.len() > MAX_MESSAGE_SIZE {
            return Err(CodecError::InvalidFormat("Message too large".to_owned()));
        }
        proof {
            use_type_invariant(&*self);
        }
        let mut i: usize = 0;
        while i < data.len()
            invariant
                i <= data.len() <= 4096,
                self.field_count == old(self).field_count,
                self.fields == old(self).fields,
                self.data_length == old(self).data_length,
                self.well_formed(),
                forall|j: int| 0 <= j < i ==> self.data@[j] == data@[j],
                forall|j: int| i <= j < 4096 ==> self.data@[j] == old(self).data@[j],
            decreases data.len() - i,
        {
            self.data[i] = data[i];
            i = i + 1;
        }
        self.data_length = data.len();
        proof {
            assert(self.data() =~= data@);
            assert(self.buffer() =~= data@ + old(self).buffer().subrange(data@.len() as int, 4096));
            assert(self.slots() =~= old(self).slots());
        }
        Ok(())
    }

    /// Indexes the fields of the loaded message. The index then holds the
    /// fields that the scan found before it ended, and the result says how
    /// it ended.
    pub fn parse_fields(&mut self) -> (r: Result<(), CodecError>)
        ensures
            final(self).buffer() == old(self).buffer(),
            final(self).data() == old(self).data(),
            final(self).fields() == scan_fields(old(self).data(), 64).fields,
            with_error_view(r) == scan_outcome(scan_fields(old(self).data(), 64).end),
    {
        proof {
            use_type_invariant(&*self);
        }
        self.field_count = 0;
        let mut pos: usize = 0;
        let ghost whole = scan_fields(self.data(), 64);
        proof {
            assert(self.data().subrange(0, self.data().len() as int) =~= self.data());
            assert(self.fields() =~= Seq::<WireField>::empty());
            assert(self.fields() + whole.fields =~= whole.fields);
        }
        while pos < self.data_length
            invariant
                self.well_formed(),
                pos <= self.data_length,
                self.data == old(self).data,
                self.data_length == old(self).data_length,
                whole == scan_fields(self.data(), 64),
                forall|i: int|
                    0 <= i < self.field_count ==> (#[trigger] self.fields@[i]).1
                        + self.fields@[i].2 <= self.data_length,
                whole.fields == self.fields() + scan_fields(
                    self.data().subrange(pos as int, self.data_length as int),
                    (64 - self.field_count) as nat,
                ).fields,
                whole.end == scan_fields(
                    self.data().subrange(pos as int, self.data_length as int),
                    (64 - self.field_count) as nat,
                ).end,
            decreases self.data_length - pos,
        {
            let ghost data = self.data();
            let ghost len = self.data_length as int;
            let ghost tail = data.subrange(pos as int, len);
            let ghost found = self.fields();
            let ghost room = (64 - self.field_count) as nat;
            let bytes = slice_subrange(self.data.as_slice(), 0, self.data_length);
            assert(bytes@ =~= data);

            let eq_pos = find_byte_from(bytes, EQUALS, pos);
            proof {
                lemma_find_byte_suffix(data, EQUALS, pos as int, pos as int);
                lemma_find_byte(data, EQUALS, pos as int);
            }
            if eq_pos >= self.data_length {
                proof {
                    assert(scan_fields(tail, room).end == ScanEnd::MissingEquals);
                    assert(found + Seq::<WireField>::empty() =~= found);
                }
                return Err(CodecError::IncompleteMessage);
            }
            let tag_bytes = slice_subrange(bytes, pos, eq_pos);
            assert(tag_bytes@ =~= tail.subrange(0, eq_pos - pos));
            let tag = match parse_u32_from_bytes(tag_bytes) {
                Ok(tag) => tag,
                Err(e) => {
                    proof {
                        assert(scan_fields(tail, room).end == ScanEnd::BadTag(tag_bytes@));
                        assert(found + Seq::<WireField>::empty() =~= found);
                    }
                    return Err(e);
                },
            };
            let soh_pos = find_byte_from(bytes, SOH, eq_pos + 1);
            proof {
                lemma_find_byte_suffix(data, SOH, pos as int, eq_pos + 1);
                lemma_find_byte(data, SOH, eq_pos + 1);
            }
            if soh_pos >= self.data_length {
                proof {
                    assert(scan_fields(tail, room).end == ScanEnd::MissingSoh);
                    assert(found + Seq::<WireField>::empty() =~= found);
                }
                return Err(CodecError::IncompleteMessage);
            }
            if self.field_count >= MAX_FIX_FIELDS {
                proof {
                    assert(scan_fields(tail, room).end == ScanEnd::TooManyFields);
                    assert(found + Seq::<WireField>::empty() =~= found);
                }
                return Err(CodecError::InvalidFormat("Too many fields".to_owned()));
            }
            let ghost value = data.subrange(eq_pos + 1, soh_pos as int);
            let ghost field = WireField { tag, value };
            let ghost rest = scan_fields(data.subrange(soh_pos + 1, len), (room - 1) as nat);
            proof {
                assert(tail.subrange(eq_pos + 1 - pos, soh_pos - pos) =~= value);
                assert(tail.subrange(soh_pos + 1 - pos, tail.len() as int) =~= data.subrange(
                    soh_pos + 1,
                    len,
                ));
                assert(scan_fields(tail, room).fields == seq![field] + rest.fields);
                assert(scan_fields(tail, room).end == rest.end);
            }
            self.fields[self.field_count] = (tag, eq_pos + 1, soh_pos - (eq_pos + 1));
            self.field_count = self.field_count + 1;
            pos = soh_pos + 1;
            proof {
                assert(self.buffer().subrange(eq_pos + 1, eq_pos + 1 + (soh_pos - (eq_pos + 1)))
                    =~= value);
                assert(self.fields() =~= found.push(field));
                assert(found.push(field) + rest.fields =~= found + (seq![field] + rest.fields));
            }
        }
        proof {
            assert(self.data().subrange(pos as int, self.data_length as int) =~= Seq::<
                u8,
            >::empty());
            assert(self.fields() + Seq::<WireField>::empty() =~= self.fields());
        }
        Ok(())
    }

    /// The value of the first field with the tag `tag`.
    pub fn get_field_bytes(&self, tag: u32) -> (r: Option<&[u8]>)
        ensures
            match r {
                Some(bytes) => lookup(self.fields(), tag) == Some(bytes@),
                None => lookup(self.fields(), tag) is None,
            },
    {
        proof {
            use_type_invariant(self);
        }
        let mut i: usize = 0;
        while i < self.field_count
            invariant
                self.well_formed(),
                i <= self.field_count,
                forall|j: int| 0 <= j < i ==> self.fields()[j].tag != tag,
            decreases self.field_count - i,
        {
            if self.fields[i].0 == tag {
                let start = self.fields[i].1;
                let len = self.fields[i].2;
                proof {
                    assert(self.fields()[i as int].tag == tag);
                    lemma_find_tag_is(self.fields(), tag, 0, i as int);
                }
                return Some(slice_subrange(self.data.as_slice(), start, start + len));
            }
            i = i + 1;
        }
        proof {
            lemma_find_tag_is(self.fields(), tag, 0, self.fields().len() as int);
        }
        None
    }

    /// The first field with the tag `tag`, as text.
    pub fn get_field_str(&self, tag: u32) -> (r: Result<Option<String>, CodecError>)
        ensures
            text_result_view(r) == field_str(self.fields(), tag),
    {
        match self.get_field_bytes(tag) {
            Some(bytes) => match String::from_utf8(slice_to_vec(bytes)) {
                Ok(text) => Ok(Some(text)),
                Err(_) => Err(CodecError::StringUtf8),
            },
            None => Ok(None),
        }
    }

    /// The first field with the tag `tag`, as a number of at most 32 bits.
    pub fn get_field_u32(&self, tag: u32) -> (r: Result<Option<u32>, CodecError>)
        ensures
            with_error_view(r) == field_u32(self.fields(), tag),
    {
        match self.get_field_bytes(tag) {
            Some(bytes) => match parse_u32_from_bytes(bytes) {
                Ok(value) => Ok(Some(value)),
                Err(e) => Err(e),
            },
            None => Ok(None),
        }
    }

    /// The first field with the tag `tag`, as a number of at most 64 bits.
    pub fn get_field_u64(&self, tag: u32) -> (r: Result<Option<u64>, CodecError>)
        ensures
            with_error_view(r) == field_u64(self.fields(), tag),
    {
        match self.get_field_bytes(tag) {
            Some(bytes) => match parse_u64_from_bytes(bytes) {
                Ok(value) => Ok(Some(value)),
                Err(e) => Err(e),
            },
            None => Ok(None),
        }
    }

    /// The first field with the tag `tag`, as a decimal number.
    pub fn get_field_decimal(&self, tag: u32) -> (r: Result<Option<Decimal>, CodecError>)
        ensures
            decimal_result_view(r) == field_decimal(self.fields(), tag),
    {
        match self.get_field_bytes(tag) {
            Some(bytes) => match std::str::from_utf8(bytes) {
                Ok(text) => match Decimal::parse(text) {
                    Some(d) => Ok(Some(d)),
                    None => Err(CodecError::ParseDecimal),
                },
                Err(_) => Err(CodecError::StrUtf8),
            },
            None => Ok(None),
        }
    }
}

} // verus!
