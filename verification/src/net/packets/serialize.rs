//! Writers: each appends the layout of one value to a buffer.

use vstd::prelude::*;
use crate::net::packets::dynamic::{
    arr_dyn_encoding, arr_fixed_encoding, blocks_fit, blocks_of, bytes_of_triplets,
    lemma_arr_dyn_encoding_push, lemma_arr_fixed_encoding_push, prefixed, rgb_decoding,
    rgb_encoding, rgb_fits,
};
use crate::net::packets::field::{FieldData, FieldMap, FieldValue};
use crate::net::packets::grammar::{
    entries_fit, entries_unpack, field_encoding, fields_encoding, lemma_fields_encoding_push,
    name_fits, payload_encoding, tag_of, value_fits, value_unpacks, TAG_ARRAY, TAG_BOOL, TAG_F32, TAG_F64, TAG_I128, TAG_I16, TAG_I32, TAG_I64,
    TAG_I8, TAG_KV_PAIR, TAG_RGB, TAG_STRING, TAG_U128, TAG_U16, TAG_U32, TAG_U64, TAG_U8,
};
use crate::net::packets::gzip::gzip;
use crate::net::packets::laws::lemma_rgb_round_trip;
use crate::net::packets::le::{le_encode, lemma_pow256_values};
use crate::net::packets::text::str_encoding;
use crate::net::packets::scalar::{
    bool_to_le, i128_to_le, i16_to_le, i32_to_le, i64_to_le, i8_to_le, u128_to_le, u16_to_le,
    u32_to_le, u64_to_le, u8_to_le,
};

verus! {

/// Appends a `bool` to `out` as one byte.
pub fn write_bool(value: bool, out: &mut Vec<u8>)
    ensures
        final(out)@ == old(out)@ + bool_to_le(value),
{
    let byte: u8 = if value { 1 } else { 0 };
    out.push(byte);
    proof {
        assert(out@ =~= old(out)@ + bool_to_le(value));
    }
}

/// Appends a `u8` to `out` as byte.
pub fn write_u8(value: u8, out: &mut Vec<u8>)
    ensures
        final(out)@ == old(out)@ + u8_to_le(value),
{
    le_encode(value as u128, 1, out);
}

/// Appends a `i8` to `out` as byte.
pub fn write_i8(value: i8, out: &mut Vec<u8>)
    ensures
        final(out)@ == old(out)@ + i8_to_le(value),
{
    let raw: u128 = if value >= 0 {
        value as u128
    } else {
        (value - i8::MIN) as u128 + 0x80
    };
    proof {
        lemma_pow256_values();
    }
    le_encode(raw, 1, out);
}

/// Appends a `u16` to `out` as 2 bytes.
pub fn write_u16(value: u16, out: &mut Vec<u8>)
    ensures
        final(out)@ == old(out)@ + u16_to_le(value),
{
    le_encode(value as u128, 2, out);
}

/// Appends a `i16` to `out` as 2 bytes.
pub fn write_i16(value: i16, out: &mut Vec<u8>)
    ensures
        final(out)@ == old(out)@ + i16_to_le(value),
{
    let raw: u128 = if value >= 0 {
        value as u128
    } else {
        (value - i16::MIN) as u128 + 0x8000
    };
    proof {
        lemma_pow256_values();
    }
    le_encode(raw, 2, out);
}

/// Appends a `u32` to `out` as 4 bytes.
pub fn write_u32(value: u32, out: &mut Vec<u8>)
    ensures
        final(out)@ == old(out)@ + u32_to_le(value),
{
    le_encode(value as u128, 4, out);
}

/// Appends a `i32` to `out` as 4 bytes.
pub fn write_i32(value: i32, out: &mut Vec<u8>)
    ensures
        final(out)@ == old(out)@ + i32_to_le(value),
{
    let raw: u128 = if value >= 0 {
        value as u128
    } else {
        (value - i32::MIN) as u128 + 0x8000_0000
    };
    proof {
        lemma_pow256_values();
    }
    le_encode(raw, 4, out);
}

/// Appends a `u64` to `out` as 8 bytes.
pub fn write_u64(value: u64, out: &mut Vec<u8>)
    ensures
        final(out)@ == old(out)@ + u64_to_le(value),
{
    le_encode(value as u128, 8, out);
}

/// Appends a `i64` to `out` as 8 bytes.
pub fn write_i64(value: i64, out: &mut Vec<u8>)
    ensures
        final(out)@ == old(out)@ + i64_to_le(value),
{
    let raw: u128 = if value >= 0 {
        value as u128
    } else {
        (value - i64::MIN) as u128 + 0x8000_0000_0000_0000
    };
    proof {
        lemma_pow256_values();
    }
    le_encode(raw, 8, out);
}

/// Appends a `u128` to `out` as 16 bytes.
pub fn write_u128(value: u128, out: &mut Vec<u8>)
    ensures
        final(out)@ == old(out)@ + u128_to_le(value),
{
    le_encode(value as u128, 16, out);
}

/// Appends a `i128` to `out` as 16 bytes.
pub fn write_i128(value: i128, out: &mut Vec<u8>)
    ensures
        final(out)@ == old(out)@ + i128_to_le(value),
{
    let raw: u128 = if value >= 0 {
        value as u128
    } else {
        (value - i128::MIN) as u128 + 0x8000_0000_0000_0000_0000_0000_0000_0000
    };
    proof {
        lemma_pow256_values();
    }
    le_encode(raw, 16, out);
}

/// Appends the bit pattern of an `f32` to `out` as 4 bytes.
pub fn write_f32_bits(bits: u32, out: &mut Vec<u8>)
    ensures
        final(out)@ == old(out)@ + u32_to_le(bits),
{
    write_u32(bits, out);
}

/// Appends the bit pattern of an `f64` to `out` as 8 bytes.
pub fn write_f64_bits(bits: u64, out: &mut Vec<u8>)
    ensures
        final(out)@ == old(out)@ + u64_to_le(bits),
{
    write_u64(bits, out);
}

/// Appends `bytes` to `out`.
pub fn write_bytes(bytes: &[u8], out: &mut Vec<u8>)
    ensures
        final(out)@ == old(out)@ + bytes@,
{
    out.extend_from_slice(bytes);
    proof {
        assert(out@ =~= old(out)@ + bytes@);
    }
}

/// Appends `payload` to `out` behind the four bytes of its length. Nothing is
/// written where the length does not fit in four bytes.
pub fn write_prefixed(payload: &Vec<u8>, out: &mut Vec<u8>) -> (ok: bool)
    ensures
        ok == (payload@.len() <= u32::MAX),
        ok ==> final(out)@ == old(out)@ + prefixed(payload@),
        !ok ==> final(out)@ == old(out)@,
{
    if payload.len() > 0xffff_ffff {
        return false;
    }
    write_u32(payload.len() as u32, out);
    write_bytes(payload.as_slice(), out);
    proof {
        assert(out@ =~= old(out)@ + prefixed(payload@));
    }
    true
}

/// Appends the UTF-8 bytes of `text` to `out`, with nothing before or after them.
pub fn write_str(text: &str, out: &mut Vec<u8>)
    ensures
        final(out)@ == old(out)@ + str_encoding(text@),
{
    write_bytes(text.as_bytes(), out);
}

/// Appends what the compressor handed back to `out`, behind its length.
/// Nothing is written where the compressor failed or the length does not fit
/// in four bytes.
pub fn write_packed(packed: Result<Vec<u8>, std::io::Error>, out: &mut Vec<u8>) -> (ok: bool)
    ensures
        ok == (packed is Ok && packed->Ok_0@.len() <= u32::MAX),
        ok ==> final(out)@ == old(out)@ + prefixed(packed->Ok_0@),
        !ok ==> final(out)@ == old(out)@,
{
    match packed {
        Ok(blob) => write_prefixed(&blob, out),
        Err(_) => false,
    }
}

/// Appends the colours to `out` as a gzip stream behind its length. The
/// colours are laid out flat, three bytes each, and compressed. This succeeds
/// exactly where the compressor gives a stream for the flat bytes and the
/// length of the stream fits in four bytes; otherwise nothing is written.
/// The stream that is written holds the colours again.
pub fn write_rgb(colours: &Vec<(u8, u8, u8)>, out: &mut Vec<u8>) -> (ok: bool)
    ensures
        ok == rgb_fits(colours@),
        ok ==> final(out)@ == old(out)@ + prefixed(rgb_encoding(colours@)),
        ok ==> rgb_decoding(rgb_encoding(colours@)) == Some(colours@),
        !ok ==> final(out)@ == old(out)@,
{
    let mut flat: Vec<u8> = Vec::new();
    let mut i: usize = 0;
    while i < colours.len()
        invariant
            i <= colours@.len(),
            flat@ == bytes_of_triplets(colours@.take(i as int)),
        decreases colours@.len() - i,
    {
        let colour = colours[i];
        flat.push(colour.0);
        flat.push(colour.1);
        flat.push(colour.2);
        i += 1;
        proof {
            assert(flat@ =~= bytes_of_triplets(colours@.take(i as int)));
        }
    }
    let packed = gzip(&flat);
    proof {
        assert(colours@.take(i as int) =~= colours@);
        if packed is Ok {
            lemma_rgb_round_trip(colours@);
        }
    }
    write_packed(packed, out)
}

/// Appends the blocks to `out`, each behind its own four-byte length, and all
/// of it behind the four bytes of the total length. Nothing is written where
/// a length does not fit in four bytes.
pub fn write_arr_dyn(blocks: &Vec<Vec<u8>>, out: &mut Vec<u8>) -> (ok: bool)
    ensures
        ok == (blocks_fit(blocks_of(blocks@)) && arr_dyn_encoding(blocks_of(blocks@)).len()
            <= u32::MAX),
        ok ==> final(out)@ == old(out)@ + prefixed(arr_dyn_encoding(blocks_of(blocks@))),
        !ok ==> final(out)@ == old(out)@,
{
    let ghost all = blocks_of(blocks@);
    let mut payload: Vec<u8> = Vec::new();
    let mut i: usize = 0;
    while i < blocks.len()
        invariant
            i <= blocks@.len(),
            all == blocks_of(blocks@),
            out@ == old(out)@,
            blocks_fit(all.take(i as int)),
            payload@ == arr_dyn_encoding(all.take(i as int)),
        decreases blocks@.len() - i,
    {
        proof {
            lemma_arr_dyn_encoding_push(all.take(i as int), all[i as int]);
            assert(all.take(i as int).push(all[i as int]) =~= all.take(i + 1));
        }
        if !write_prefixed(&blocks[i], &mut payload) {
            proof {
                assert(all[i as int].len() > u32::MAX);
            }
            return false;
        }
        i += 1;
    }
    proof {
        assert(all.take(i as int) =~= all);
    }
    write_prefixed(&payload, out)
}

/// Whether every block has `size` bytes.
pub open spec fn blocks_sized(blocks: Seq<Seq<u8>>, size: nat) -> bool {
    forall|i: int| 0 <= i < blocks.len() ==> (#[trigger] blocks[i]).len() == size
}

/// Appends the blocks, which must have `sz` bytes each, to `out` with nothing
/// between them, behind the four bytes of the total length. Nothing is
/// written where a block has another size or the total length does not fit
/// in four bytes.
pub fn write_arr_fixed(blocks: &Vec<Vec<u8>>, sz: u32, out: &mut Vec<u8>) -> (ok: bool)
    ensures
        ok == (blocks_sized(blocks_of(blocks@), sz as nat) && arr_fixed_encoding(
            blocks_of(blocks@),
        ).len() <= u32::MAX),
        ok ==> final(out)@ == old(out)@ + prefixed(arr_fixed_encoding(blocks_of(blocks@))),
        !ok ==> final(out)@ == old(out)@,
{
    let ghost all = blocks_of(blocks@);
    let mut payload: Vec<u8> = Vec::new();
    let mut i: usize = 0;
    while i < blocks.len()
        invariant
            i <= blocks@.len(),
            all == blocks_of(blocks@),
            out@ == old(out)@,
            blocks_sized(all.take(i as int), sz as nat),
            payload@ == arr_fixed_encoding(all.take(i as int)),
        decreases blocks@.len() - i,
    {
        proof {
            lemma_arr_fixed_encoding_push(all.take(i as int), all[i as int]);
            assert(all.take(i as int).push(all[i as int]) =~= all.take(i + 1));
        }
        if blocks[i].len() != sz as usize {
            proof {
                assert(all[i as int].len() != sz);
            }
            return false;
        }
        write_bytes(blocks[i].as_slice(), &mut payload);
        i += 1;
    }
    proof {
        assert(all.take(i as int) =~= all);
    }
    write_prefixed(&payload, out)
}

/// Appends the payload of `data` to `out`. This succeeds exactly where the
/// value fits; otherwise nothing is written.
pub fn write_payload(data: &FieldData, out: &mut Vec<u8>) -> (ok: bool)
    ensures
        ok == value_fits(data.value()),
        ok ==> final(out)@ == old(out)@ + payload_encoding(data.value()),
        ok ==> value_unpacks(data.value()),
        !ok ==> final(out)@ == old(out)@,
    decreases data, 0nat,
{
    match data {
        FieldData::Bool(v) => {
            write_bool(*v, out);
            true
        },
        FieldData::U8(v) => {
            write_u8(*v, out);
            true
        },
        FieldData::I8(v) => {
            write_i8(*v, out);
            true
        },
        FieldData::U16(v) => {
            write_u16(*v, out);
            true
        },
        FieldData::I16(v) => {
            write_i16(*v, out);
            true
        },
        FieldData::U32(v) => {
            write_u32(*v, out);
            true
        },
        FieldData::I32(v) => {
            write_i32(*v, out);
            true
        },
        FieldData::U64(v) => {
            write_u64(*v, out);
            true
        },
        FieldData::I64(v) => {
            write_i64(*v, out);
            true
        },
        FieldData::U128(v) => {
            write_u128(*v, out);
            true
        },
        FieldData::I128(v) => {
            write_i128(*v, out);
            true
        },
        FieldData::F32(v) => {
            write_f32_bits(*v, out);
            true
        },
        FieldData::F64(v) => {
            write_f64_bits(*v, out);
            true
        },
        FieldData::String(text) => {
            let mut payload: Vec<u8> = Vec::new();
            write_str(text.as_str(), &mut payload);
            write_prefixed(&payload, out)
        },
        FieldData::KVPair(map) => write_kv_pair(map, out),
        FieldData::Array(blocks) => write_arr_dyn(blocks, out),
        FieldData::Rgb(colours) => write_rgb(colours, out),
    }
}

/// Appends one field to `out`: its name, the tag of its value and the
/// payload. This succeeds exactly where the name takes two bytes and the
/// value fits; otherwise nothing is written.
pub fn write_field(name: &str, data: &FieldData, out: &mut Vec<u8>) -> (ok: bool)
    ensures
        ok == (name_fits(name@) && value_fits(data.value())),
        ok ==> final(out)@ == old(out)@ + field_encoding(name@, data.value()),
        ok ==> value_unpacks(data.value()),
        !ok ==> final(out)@ == old(out)@,
    decreases data, 1nat,
{
    if name.as_bytes().len() != 2 {
        return false;
    }
    let mut payload: Vec<u8> = Vec::new();
    if !write_payload(data, &mut payload) {
        return false;
    }
    write_str(name, out);
    write_u16(tag(data), out);
    write_bytes(payload.as_slice(), out);
    proof {
        assert(out@ =~= old(out)@ + field_encoding(name@, data.value()));
    }
    true
}

/// The tag under which `data` is written.
pub fn tag(data: &FieldData) -> (res: u16)
    ensures
        res == tag_of(data.value()),
{
    match data {
        FieldData::Bool(_) => TAG_BOOL,
        FieldData::U8(_) => TAG_U8,
        FieldData::I8(_) => TAG_I8,
        FieldData::U16(_) => TAG_U16,
        FieldData::I16(_) => TAG_I16,
        FieldData::U32(_) => TAG_U32,
        FieldData::I32(_) => TAG_I32,
        FieldData::U64(_) => TAG_U64,
        FieldData::I64(_) => TAG_I64,
        FieldData::U128(_) => TAG_U128,
        FieldData::I128(_) => TAG_I128,
        FieldData::F32(_) => TAG_F32,
        FieldData::F64(_) => TAG_F64,
        FieldData::String(_) => TAG_STRING,
        FieldData::KVPair(_) => TAG_KV_PAIR,
        FieldData::Array(_) => TAG_ARRAY,
        FieldData::Rgb(_) => TAG_RGB,
    }
}

/// Appends the fields of `map` to `payload`, one after the other in their
/// order. Where a field cannot be written, the fields before it have been
/// appended.
pub fn write_fields(map: &FieldMap, payload: &mut Vec<u8>) -> (ok: bool)
    ensures
        ok == entries_fit(map@),
        ok ==> final(payload)@ == old(payload)@ + fields_encoding(map@),
        ok ==> entries_unpack(map@),
        !ok ==> exists|k: int|
            0 <= k < map@.len() && final(payload)@ == old(payload)@ + fields_encoding(
                #[trigger] map@.take(k),
            ),
    decreases map, 0nat,
{
    let mut i: usize = 0;
    proof {
        assert(payload@ + fields_encoding(map@.take(0)) =~= payload@);
    }
    while i < map.len()
        invariant
            i <= map@.len(),
            payload@ == old(payload)@ + fields_encoding(map@.take(i as int)),
            entries_fit(map@.take(i as int)),
            entries_unpack(map@.take(i as int)),
        decreases map@.len() - i,
    {
        let field = map.entry(i);
        proof {
            lemma_fields_encoding_push(map@.take(i as int), field.name@, field.data.value());
            assert(map@.take(i as int).push(map@[i as int]) =~= map@.take(i + 1));
        }
        if !write_field(field.name.as_str(), &field.data, payload) {
            return false;
        }
        proof {
            assert(payload@ =~= old(payload)@ + fields_encoding(map@.take(i + 1)));
        }
        i += 1;
    }
    proof {
        assert(map@.take(i as int) =~= map@);
    }
    true
}

/// Appends the fields of `map` to `out`, behind the four bytes of their total
/// length. Nothing is written where a field cannot be written or the total
/// length does not fit in four bytes.
pub fn write_kv_pair(map: &FieldMap, out: &mut Vec<u8>) -> (ok: bool)
    ensures
        ok == value_fits(FieldValue::KVPair(map@)),
        ok ==> final(out)@ == old(out)@ + prefixed(fields_encoding(map@)),
        ok ==> entries_unpack(map@),
        !ok ==> final(out)@ == old(out)@,
    decreases map, 1nat,
{
    let mut payload: Vec<u8> = Vec::new();
    if !write_fields(map, &mut payload) {
        return false;
    }
    proof {
        assert(payload@ =~= fields_encoding(map@));
    }
    write_prefixed(&payload, out)
}

} // verus!
