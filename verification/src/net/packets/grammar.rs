//! The byte grammar of fields: what a run of bytes decodes to, and the bytes
//! that a value is written as.
//!
//! A field is a two-byte name, a two-byte type tag and a payload. The payload
//! of the tags 0 to 12 has a fixed width; the payload of the tags 13 to 16
//! stands behind a four-byte length. An array (tag 15) is a run of blocks,
//! each behind a four-byte length of its own.

use vstd::prelude::*;
use crate::net::packets::dynamic::{
    arr_dyn_decoding, arr_dyn_encoding, blocks_fit, prefixed, rgb_decoding, rgb_encoding,
    rgb_failure, rgb_fits,
};
use crate::net::packets::error::ErrorView;
use crate::net::packets::field::{upsert, Entries, FieldValue};
use crate::net::packets::scalar::{
    bool_from_le, bool_to_le, i128_from_le, i128_to_le, i16_from_le, i16_to_le, i32_from_le,
    i32_to_le, i64_from_le, i64_to_le, i8_from_le, i8_to_le, u128_from_le, u128_to_le,
    u16_from_le, u16_to_le, u32_from_le, u32_to_le, u64_from_le, u64_to_le, u8_from_le, u8_to_le,
};
use crate::net::packets::text::{str_decoding, str_encoding};

verus! {

/// The tag of a `bool` in one byte.
pub const TAG_BOOL: u16 = 0;

/// The tag of a `u8`.
pub const TAG_U8: u16 = 1;

/// The tag of an `i8`.
pub const TAG_I8: u16 = 2;

/// The tag of a `u16`.
pub const TAG_U16: u16 = 3;

/// The tag of an `i16`.
pub const TAG_I16: u16 = 4;

/// The tag of a `u32`.
pub const TAG_U32: u16 = 5;

/// The tag of an `i32`.
pub const TAG_I32: u16 = 6;

/// The tag of a `u64`.
pub const TAG_U64: u16 = 7;

/// The tag of an `i64`.
pub const TAG_I64: u16 = 8;

/// The tag of a `u128`.
pub const TAG_U128: u16 = 9;

/// The tag of an `i128`.
pub const TAG_I128: u16 = 10;

/// The tag of an `f32`, carried as its bit pattern.
pub const TAG_F32: u16 = 11;

/// The tag of an `f64`, carried as its bit pattern.
pub const TAG_F64: u16 = 12;

/// The tag of UTF-8 text behind its length.
pub const TAG_STRING: u16 = 13;

/// The tag of a run of fields behind its length.
pub const TAG_KV_PAIR: u16 = 14;

/// The tag of a run of blocks behind its length.
pub const TAG_ARRAY: u16 = 15;

/// The tag of a gzip stream of colours behind its length.
pub const TAG_RGB: u16 = 16;

/// A lower-case ASCII letter becomes its capital; every other byte stays.
pub open spec fn upper_byte(b: u8) -> u8 {
    if 0x61 <= b <= 0x7a {
        (b - 0x20) as u8
    } else {
        b
    }
}

/// The bytes with every lower-case ASCII letter made a capital.
pub open spec fn upper_bytes(raw: Seq<u8>) -> Seq<u8> {
    Seq::new(raw.len(), |i: int| upper_byte(raw[i]))
}

/// The name that the bytes of a name spell: their letters are made capitals,
/// and the result must be UTF-8.
pub open spec fn name_decoding(raw: Seq<u8>) -> Option<Seq<char>> {
    str_decoding(upper_bytes(raw))
}

/// The width of the payload of a tag from 0 to 12.
pub open spec fn fixed_width(tag: u16) -> nat {
    if tag <= 2 {
        1
    } else if tag <= 4 {
        2
    } else if tag <= 6 || tag == 11 {
        4
    } else if tag <= 8 || tag == 12 {
        8
    } else {
        16
    }
}

/// The value that a payload of fixed width spells under a tag from 0 to 12.
pub open spec fn fixed_value(tag: u16, bytes: Seq<u8>) -> FieldValue {
    if tag == 0 {
        FieldValue::Bool(bool_from_le(bytes))
    } else if tag == 1 {
        FieldValue::U8(u8_from_le(bytes))
    } else if tag == 2 {
        FieldValue::I8(i8_from_le(bytes))
    } else if tag == 3 {
        FieldValue::U16(u16_from_le(bytes))
    } else if tag == 4 {
        FieldValue::I16(i16_from_le(bytes))
    } else if tag == 5 {
        FieldValue::U32(u32_from_le(bytes))
    } else if tag == 6 {
        FieldValue::I32(i32_from_le(bytes))
    } else if tag == 7 {
        FieldValue::U64(u64_from_le(bytes))
    } else if tag == 8 {
        FieldValue::I64(i64_from_le(bytes))
    } else if tag == 9 {
        FieldValue::U128(u128_from_le(bytes))
    } else if tag == 10 {
        FieldValue::I128(i128_from_le(bytes))
    } else if tag == 11 {
        FieldValue::F32(u32_from_le(bytes))
    } else {
        FieldValue::F64(u64_from_le(bytes))
    }
}

/// The value at the front of `bytes` under `tag` and the bytes behind it.
/// `depth` says how many levels of key-value fields may still be entered. A
/// failure names no field yet.
pub open spec fn payload_decoding(tag: u16, bytes: Seq<u8>, depth: nat) -> Result<
    (FieldValue, Seq<u8>),
    ErrorView,
>
    decreases depth, bytes.len(), 0nat,
{
    if tag > 16 {
        Err(ErrorView::InvalidFieldType(Seq::empty(), tag))
    } else if tag <= 12 {
        let width = fixed_width(tag);
        if bytes.len() < width {
            Err(ErrorView::TooSmallPacket)
        } else {
            Ok((fixed_value(tag, bytes.take(width as int)), bytes.skip(width as int)))
        }
    } else if bytes.len() < 4 {
        Err(ErrorView::TooSmallPacket)
    } else {
        let n = u32_from_le(bytes.take(4)) as int;
        let rest = bytes.skip(4);
        if tag == 14 && depth == 0 {
            Err(ErrorView::NestingTooDeep)
        } else if n > rest.len() {
            Err(ErrorView::TooSmallPacket)
        } else {
            let body = rest.take(n);
            let after = rest.skip(n);
            if tag == 13 {
                match str_decoding(body) {
                    Some(text) => Ok((FieldValue::String(text), after)),
                    None => Err(ErrorView::InvalidString(Seq::empty())),
                }
            } else if tag == 14 {
                match fields_from(Seq::empty(), body, (depth - 1) as nat) {
                    Ok(entries) => Ok((FieldValue::KVPair(entries), after)),
                    Err(e) => Err(e),
                }
            } else if tag == 15 {
                match arr_dyn_decoding(body) {
                    Some(blocks) => Ok((FieldValue::Array(blocks), after)),
                    None => Err(ErrorView::TooSmallPacket),
                }
            } else {
                match rgb_decoding(body) {
                    Some(colours) => Ok((FieldValue::Rgb(colours), after)),
                    None => Err(ErrorView::UnableToDecompress(Seq::empty(), rgb_failure(body))),
                }
            }
        }
    }
}

/// The field at the front of `bytes` and the bytes behind it. A failure in
/// the payload names the field, unless it names one already.
pub open spec fn field_decoding(bytes: Seq<u8>, depth: nat) -> Result<
    ((Seq<char>, FieldValue), Seq<u8>),
    ErrorView,
>
    decreases depth, bytes.len(), 1nat,
{
    if bytes.len() < 2 {
        Err(ErrorView::TooSmallPacket)
    } else {
        match name_decoding(bytes.take(2)) {
            None => Err(ErrorView::InvalidString(Seq::empty())),
            Some(name) => {
                let rest = bytes.skip(2);
                if rest.len() < 2 {
                    Err(ErrorView::TooSmallPacket)
                } else {
                    let tag = u16_from_le(rest.take(2));
                    match payload_decoding(tag, rest.skip(2), depth) {
                        Ok((value, after)) => Ok(((name, value), after)),
                        Err(e) => Err(e.named(name)),
                    }
                }
            },
        }
    }
}

/// The entries `acc` with the fields of `bytes` put into them one after the
/// other, until `bytes` are used up. A name that comes again replaces the
/// value that it had.
pub open spec fn fields_from(acc: Entries, bytes: Seq<u8>, depth: nat) -> Result<
    Entries,
    ErrorView,
>
    decreases depth, bytes.len(), 2nat,
{
    if bytes.len() == 0 {
        Ok(acc)
    } else {
        match field_decoding(bytes, depth) {
            Err(e) => Err(e),
            Ok((entry, rest)) => {
                if rest.len() < bytes.len() {
                    fields_from(upsert(acc, entry.0, entry.1), rest, depth)
                } else {
                    Err(ErrorView::TooSmallPacket)
                }
            },
        }
    }
}

/// The fields that `bytes` hold.
pub open spec fn fields_decoding(bytes: Seq<u8>, depth: nat) -> Result<Entries, ErrorView> {
    fields_from(Seq::empty(), bytes, depth)
}

/// The tag under which a value is written.
pub open spec fn tag_of(value: FieldValue) -> u16 {
    match value {
        FieldValue::Bool(_) => 0,
        FieldValue::U8(_) => 1,
        FieldValue::I8(_) => 2,
        FieldValue::U16(_) => 3,
        FieldValue::I16(_) => 4,
        FieldValue::U32(_) => 5,
        FieldValue::I32(_) => 6,
        FieldValue::U64(_) => 7,
        FieldValue::I64(_) => 8,
        FieldValue::U128(_) => 9,
        FieldValue::I128(_) => 10,
        FieldValue::F32(_) => 11,
        FieldValue::F64(_) => 12,
        FieldValue::String(_) => 13,
        FieldValue::KVPair(_) => 14,
        FieldValue::Array(_) => 15,
        FieldValue::Rgb(_) => 16,
    }
}

/// The payload of a value.
pub open spec fn payload_encoding(value: FieldValue) -> Seq<u8>
    decreases value, 0nat,
{
    match value {
        FieldValue::Bool(v) => bool_to_le(v),
        FieldValue::U8(v) => u8_to_le(v),
        FieldValue::I8(v) => i8_to_le(v),
        FieldValue::U16(v) => u16_to_le(v),
        FieldValue::I16(v) => i16_to_le(v),
        FieldValue::U32(v) => u32_to_le(v),
        FieldValue::I32(v) => i32_to_le(v),
        FieldValue::U64(v) => u64_to_le(v),
        FieldValue::I64(v) => i64_to_le(v),
        FieldValue::U128(v) => u128_to_le(v),
        FieldValue::I128(v) => i128_to_le(v),
        FieldValue::F32(v) => u32_to_le(v),
        FieldValue::F64(v) => u64_to_le(v),
        FieldValue::String(text) => prefixed(str_encoding(text)),
        FieldValue::KVPair(entries) => prefixed(fields_encoding(entries)),
        FieldValue::Array(blocks) => prefixed(arr_dyn_encoding(blocks)),
        FieldValue::Rgb(colours) => prefixed(rgb_encoding(colours)),
    }
}

/// One field: its name, its tag, its payload.
pub open spec fn field_encoding(name: Seq<char>, value: FieldValue) -> Seq<u8>
    decreases value, 1nat,
{
    str_encoding(name) + u16_to_le(tag_of(value)) + payload_encoding(value)
}

/// The fields one after the other, in their order.
pub open spec fn fields_encoding(entries: Entries) -> Seq<u8>
    decreases entries, 2nat,
{
    if entries.len() == 0 {
        Seq::empty()
    } else {
        field_encoding(entries[0].0, entries[0].1) + fields_encoding(entries.skip(1))
    }
}

/// Whether a name can be written: it must take exactly two bytes.
pub open spec fn name_fits(name: Seq<char>) -> bool {
    str_encoding(name).len() == 2
}

/// Whether a value can be written: every length in it must fit its four-byte
/// prefix, every name in it must fit, and the compressor must give a stream
/// for every run of colours in it.
pub open spec fn value_fits(value: FieldValue) -> bool
    decreases value,
{
    match value {
        FieldValue::String(text) => str_encoding(text).len() <= u32::MAX,
        FieldValue::KVPair(entries) => fields_encoding(entries).len() <= u32::MAX && forall|
            i: int,
        |
            0 <= i < entries.len() ==> name_fits((#[trigger] entries[i]).0) && value_fits(
                entries[i].1,
            ),
        FieldValue::Array(blocks) => blocks_fit(blocks) && arr_dyn_encoding(blocks).len()
            <= u32::MAX,
        FieldValue::Rgb(colours) => rgb_fits(colours),
        _ => true,
    }
}

/// Whether every entry can be written.
pub open spec fn entries_fit(entries: Entries) -> bool {
    forall|i: int|
        0 <= i < entries.len() ==> name_fits((#[trigger] entries[i]).0) && value_fits(
            entries[i].1,
        )
}

/// Whether every run of colours in a value comes back from its gzip stream.
pub open spec fn value_unpacks(value: FieldValue) -> bool
    decreases value,
{
    match value {
        FieldValue::KVPair(entries) => forall|i: int|
            0 <= i < entries.len() ==> value_unpacks((#[trigger] entries[i]).1),
        FieldValue::Rgb(colours) => rgb_decoding(rgb_encoding(colours)) == Some(colours),
        _ => true,
    }
}

/// Whether every run of colours in the entries comes back from its gzip stream.
pub open spec fn entries_unpack(entries: Entries) -> bool {
    forall|i: int| 0 <= i < entries.len() ==> value_unpacks((#[trigger] entries[i]).1)
}

/// Adding an entry at the end adds its field at the end of the layout.
pub proof fn lemma_fields_encoding_push(entries: Entries, name: Seq<char>, value: FieldValue)
    ensures
        fields_encoding(entries.push((name, value))) == fields_encoding(entries) + field_encoding(
            name,
            value,
        ),
    decreases entries.len(),
{
    let longer = entries.push((name, value));
    if entries.len() == 0 {
        assert(longer.skip(1) =~= Entries::empty());
        assert(fields_encoding(longer.skip(1)) =~= Seq::<u8>::empty());
        assert(fields_encoding(longer) =~= field_encoding(name, value));
        assert(fields_encoding(entries) + field_encoding(name, value) =~= field_encoding(
            name,
            value,
        ));
    } else {
        lemma_fields_encoding_push(entries.skip(1), name, value);
        assert(longer.skip(1) =~= entries.skip(1).push((name, value)));
        assert(fields_encoding(longer) =~= fields_encoding(entries) + field_encoding(
            name,
            value,
        ));
    }
}

/// A field takes at least four bytes, and what is left behind it is the end
/// of what was there.
pub proof fn lemma_field_consumes(bytes: Seq<u8>, depth: nat)
    ensures
        field_decoding(bytes, depth) is Ok ==> field_decoding(bytes, depth)->Ok_0.1.len() + 4
            <= bytes.len(),
        field_decoding(bytes, depth) is Ok ==> field_decoding(bytes, depth)->Ok_0.1 == bytes.skip(
            bytes.len() - field_decoding(bytes, depth)->Ok_0.1.len(),
        ),
{
    if field_decoding(bytes, depth) is Ok {
        let rest = field_decoding(bytes, depth)->Ok_0.1;
        assert(rest.len() + 4 <= bytes.len());
        assert(rest =~= bytes.skip(bytes.len() - rest.len()));
    }
}

} // verus!
