//! Readers: each takes what it needs from the front of a cursor.

use vstd::prelude::*;
use crate::net::packets::cursor::Cursor;
use crate::net::packets::dynamic::{
    arr_dyn_decoding, arr_fixed_decoding, blocks_of, is_multiple, lemma_arr_fixed_multiple,
    rgb_decoding, rgb_failure, triplets_of,
};
use crate::net::packets::error::{
    DecompressCause, DecompressCauseView, Error, ErrorView, ParsePacketResult,
};
use crate::net::packets::field::{Field, FieldData, FieldMap};
use crate::net::packets::grammar::{
    field_decoding, fields_decoding, fields_from, lemma_field_consumes, name_decoding,
    payload_decoding, upper_byte, upper_bytes,
};
use crate::net::packets::gzip::gunzip;
use crate::net::packets::le::{le_decode, lemma_pow256_values};
use crate::net::packets::scalar::{
    bool_from_le, i128_from_le, i16_from_le, i32_from_le, i64_from_le, i8_from_le, u128_from_le,
    u16_from_le, u32_from_le, u64_from_le, u8_from_le,
};
use crate::net::packets::text::str_decoding;

verus! {

/// What is left of `before` once a read of `n` bytes has returned: the rest
/// after a success, everything after a failure.
pub open spec fn after_read(before: Seq<u8>, n: nat) -> Seq<u8> {
    if n <= before.len() {
        before.skip(n as int)
    } else {
        before
    }
}

/// Whether `res` is the failure `TooSmallPacket`.
pub open spec fn is_too_small<T>(res: ParsePacketResult<T>) -> bool {
    res matches Err(Error::TooSmallPacket)
}

/// Reads the next `n` bytes from `buf`.
pub fn read_n(n: u32, buf: &mut Cursor) -> (res: ParsePacketResult<Vec<u8>>)
    ensures
        final(buf)@ == after_read(old(buf)@, n as nat),
        n <= old(buf)@.len() ==> res is Ok && res->Ok_0@ == old(buf)@.take(n as int),
        n > old(buf)@.len() ==> is_too_small(res),
{
    buf.take(n as usize)
}

/// Reads the next byte of `buf` as a `bool`.
pub fn read_bool(buf: &mut Cursor) -> (res: ParsePacketResult<bool>)
    ensures
        final(buf)@ == after_read(old(buf)@, 1),
        1 <= old(buf)@.len() ==> res is Ok && res->Ok_0 == bool_from_le(old(buf)@.take(1)),
        1 > old(buf)@.len() ==> is_too_small(res),
{
    match read_n(1, buf) {
        Err(e) => Err(e),
        Ok(bytes) => Ok(bytes[0] != 0),
    }
}

/// Reads the next byte of `buf` as a `u8`.
pub fn read_u8(buf: &mut Cursor) -> (res: ParsePacketResult<u8>)
    ensures
        final(buf)@ == after_read(old(buf)@, 1),
        1 <= old(buf)@.len() ==> res is Ok && res->Ok_0 == u8_from_le(old(buf)@.take(1)),
        1 > old(buf)@.len() ==> is_too_small(res),
{
    match read_n(1, buf) {
        Err(e) => Err(e),
        Ok(bytes) => {
            let v: u128 = le_decode(&bytes);
            proof {
                lemma_pow256_values();
            }
            Ok(v as u8)
        },
    }
}

/// Reads the next byte of `buf` as a `i8`.
pub fn read_i8(buf: &mut Cursor) -> (res: ParsePacketResult<i8>)
    ensures
        final(buf)@ == after_read(old(buf)@, 1),
        1 <= old(buf)@.len() ==> res is Ok && res->Ok_0 == i8_from_le(old(buf)@.take(1)),
        1 > old(buf)@.len() ==> is_too_small(res),
{
    match read_n(1, buf) {
        Err(e) => Err(e),
        Ok(bytes) => {
            let v: u128 = le_decode(&bytes);
            proof {
                lemma_pow256_values();
            }
            if v < 0x80 {
                Ok(v as i8)
            } else {
                Ok((v - 0x80) as i8 + i8::MIN)
            }
        },
    }
}

/// Reads the next 2 bytes of `buf` as a `u16`.
pub fn read_u16(buf: &mut Cursor) -> (res: ParsePacketResult<u16>)
    ensures
        final(buf)@ == after_read(old(buf)@, 2),
        2 <= old(buf)@.len() ==> res is Ok && res->Ok_0 == u16_from_le(old(buf)@.take(2)),
        2 > old(buf)@.len() ==> is_too_small(res),
{
    match read_n(2, buf) {
        Err(e) => Err(e),
        Ok(bytes) => {
            let v: u128 = le_decode(&bytes);
            proof {
                lemma_pow256_values();
            }
            Ok(v as u16)
        },
    }
}

/// Reads the next 2 bytes of `buf` as a `i16`.
pub fn read_i16(buf: &mut Cursor) -> (res: ParsePacketResult<i16>)
    ensures
        final(buf)@ == after_read(old(buf)@, 2),
        2 <= old(buf)@.len() ==> res is Ok && res->Ok_0 == i16_from_le(old(buf)@.take(2)),
        2 > old(buf)@.len() ==> is_too_small(res),
{
    match read_n(2, buf) {
        Err(e) => Err(e),
        Ok(bytes) => {
            let v: u128 = le_decode(&bytes);
            proof {
                lemma_pow256_values();
            }
            if v < 0x8000 {
                Ok(v as i16)
            } else {
                Ok((v - 0x8000) as i16 + i16::MIN)
            }
        },
    }
}

/// Reads the next 4 bytes of `buf` as a `u32`.
pub fn read_u32(buf: &mut Cursor) -> (res: ParsePacketResult<u32>)
    ensures
        final(buf)@ == after_read(old(buf)@, 4),
        4 <= old(buf)@.len() ==> res is Ok && res->Ok_0 == u32_from_le(old(buf)@.take(4)),
        4 > old(buf)@.len() ==> is_too_small(res),
{
    match read_n(4, buf) {
        Err(e) => Err(e),
        Ok(bytes) => {
            let v: u128 = le_decode(&bytes);
            proof {
                lemma_pow256_values();
            }
            Ok(v as u32)
        },
    }
}

/// Reads the next 4 bytes of `buf` as a `i32`.
pub fn read_i32(buf: &mut Cursor) -> (res: ParsePacketResult<i32>)
    ensures
        final(buf)@ == after_read(old(buf)@, 4),
        4 <= old(buf)@.len() ==> res is Ok && res->Ok_0 == i32_from_le(old(buf)@.take(4)),
        4 > old(buf)@.len() ==> is_too_small(res),
{
    match read_n(4, buf) {
        Err(e) => Err(e),
        Ok(bytes) => {
            let v: u128 = le_decode(&bytes);
            proof {
                lemma_pow256_values();
            }
            if v < 0x8000_0000 {
                Ok(v as i32)
            } else {
                Ok((v - 0x8000_0000) as i32 + i32::MIN)
            }
        },
    }
}

/// Reads the next 8 bytes of `buf` as a `u64`.
pub fn read_u64(buf: &mut Cursor) -> (res: ParsePacketResult<u64>)
    ensures
        final(buf)@ == after_read(old(buf)@, 8),
        8 <= old(buf)@.len() ==> res is Ok && res->Ok_0 == u64_from_le(old(buf)@.take(8)),
        8 > old(buf)@.len() ==> is_too_small(res),
{
    match read_n(8, buf) {
        Err(e) => Err(e),
        Ok(bytes) => {
            let v: u128 = le_decode(&bytes);
            proof {
                lemma_pow256_values();
            }
            Ok(v as u64)
        },
    }
}

/// Reads the next 8 bytes of `buf` as a `i64`.
pub fn read_i64(buf: &mut Cursor) -> (res: ParsePacketResult<i64>)
    ensures
        final(buf)@ == after_read(old(buf)@, 8),
        8 <= old(buf)@.len() ==> res is Ok && res->Ok_0 == i64_from_le(old(buf)@.take(8)),
        8 > old(buf)@.len() ==> is_too_small(res),
{
    match read_n(8, buf) {
        Err(e) => Err(e),
        Ok(bytes) => {
            let v: u128 = le_decode(&bytes);
            proof {
                lemma_pow256_values();
            }
            if v < 0x8000_0000_0000_0000 {
                Ok(v as i64)
            } else {
                Ok((v - 0x8000_0000_0000_0000) as i64 + i64::MIN)
            }
        },
    }
}

/// Reads the next 16 bytes of `buf` as a `u128`.
pub fn read_u128(buf: &mut Cursor) -> (res: ParsePacketResult<u128>)
    ensures
        final(buf)@ == after_read(old(buf)@, 16),
        16 <= old(buf)@.len() ==> res is Ok && res->Ok_0 == u128_from_le(old(buf)@.take(16)),
        16 > old(buf)@.len() ==> is_too_small(res),
{
    match read_n(16, buf) {
        Err(e) => Err(e),
        Ok(bytes) => {
            let v: u128 = le_decode(&bytes);
            proof {
                lemma_pow256_values();
            }
            Ok(v as u128)
        },
    }
}

/// Reads the next 16 bytes of `buf` as a `i128`.
pub fn read_i128(buf: &mut Cursor) -> (res: ParsePacketResult<i128>)
    ensures
        final(buf)@ == after_read(old(buf)@, 16),
        16 <= old(buf)@.len() ==> res is Ok && res->Ok_0 == i128_from_le(old(buf)@.take(16)),
        16 > old(buf)@.len() ==> is_too_small(res),
{
    match read_n(16, buf) {
        Err(e) => Err(e),
        Ok(bytes) => {
            let v: u128 = le_decode(&bytes);
            proof {
                lemma_pow256_values();
            }
            if v < 0x8000_0000_0000_0000_0000_0000_0000_0000 {
                Ok(v as i128)
            } else {
                Ok((v - 0x8000_0000_0000_0000_0000_0000_0000_0000) as i128 + i128::MIN)
            }
        },
    }
}

/// Reads the next 4 bytes of `buf` as the bit pattern of an `f32`. The
/// pattern is handed out as it stands, so that no bit of it is lost.
pub fn read_f32_bits(buf: &mut Cursor) -> (res: ParsePacketResult<u32>)
    ensures
        final(buf)@ == after_read(old(buf)@, 4),
        4 <= old(buf)@.len() ==> res is Ok && res->Ok_0 == u32_from_le(old(buf)@.take(4)),
        4 > old(buf)@.len() ==> is_too_small(res),
{
    read_u32(buf)
}

/// Reads the next 8 bytes of `buf` as the bit pattern of an `f64`. The
/// pattern is handed out as it stands, so that no bit of it is lost.
pub fn read_f64_bits(buf: &mut Cursor) -> (res: ParsePacketResult<u64>)
    ensures
        final(buf)@ == after_read(old(buf)@, 8),
        8 <= old(buf)@.len() ==> res is Ok && res->Ok_0 == u64_from_le(old(buf)@.take(8)),
        8 > old(buf)@.len() ==> is_too_small(res),
{
    read_u64(buf)
}

/// Turns what `String::from_utf8` handed back into the outcome of a read: the
/// text as it is, or the failure `InvalidString`, which names no field yet
/// and carries the report.
pub fn text_from(outcome: Result<String, std::string::FromUtf8Error>) -> (res: ParsePacketResult<
    String,
>)
    ensures
        (match outcome {
            Ok(text) => res is Ok && res->Ok_0 == text,
            Err(cause) => (res matches Err(Error::InvalidString(field, report)) && field@
                == Seq::<char>::empty() && report == cause),
        }),
{
    match outcome {
        Ok(text) => Ok(text),
        Err(cause) => Err(Error::InvalidString(String::new(), cause)),
    }
}

/// Reads the next `n` bytes of `buf` as text. The bytes are taken even where
/// they are no UTF-8; the failure then names no field.
pub fn read_str(n: u32, buf: &mut Cursor) -> (res: ParsePacketResult<String>)
    ensures
        final(buf)@ == after_read(old(buf)@, n as nat),
        n > old(buf)@.len() ==> is_too_small(res),
        n <= old(buf)@.len() ==> (match str_decoding(old(buf)@.take(n as int)) {
            Some(text) => res is Ok && res->Ok_0@ == text,
            None => res is Err && res->Err_0@ == ErrorView::InvalidString(Seq::empty()),
        }),
{
    match read_n(n, buf) {
        Err(e) => Err(e),
        Ok(bytes) => text_from(String::from_utf8(bytes)),
    }
}

/// Groups unpacked bytes into colours of three bytes each. A length that is
/// no multiple of three is a failure to decompress, which names no field.
pub fn group_triplets(raw: &Vec<u8>) -> (res: ParsePacketResult<Vec<(u8, u8, u8)>>)
    ensures
        raw@.len() % 3 == 0 ==> res is Ok && res->Ok_0@ == triplets_of(raw@),
        raw@.len() % 3 != 0 ==> res is Err && res->Err_0@ == ErrorView::UnableToDecompress(
            Seq::empty(),
            DecompressCauseView::Ragged(raw@.len()),
        ),
{
    if raw.len() % 3 != 0 {
        return Err(Error::UnableToDecompress(String::new(), DecompressCause::Ragged(raw.len())));
    }
    let mut values: Vec<(u8, u8, u8)> = Vec::new();
    let mut i: usize = 0;
    while i < raw.len()
        invariant
            i <= raw@.len(),
            i % 3 == 0,
            raw@.len() % 3 == 0,
            values@.len() == i / 3,
            forall|k: int|
                0 <= k < values@.len() ==> values@[k] == (
                    raw@[3 * k],
                    raw@[3 * k + 1],
                    raw@[3 * k + 2],
                ),
        decreases raw@.len() - i,
    {
        values.push((raw[i], raw[i + 1], raw[i + 2]));
        i += 3;
    }
    proof {
        assert(values@ =~= triplets_of(raw@));
    }
    Ok(values)
}

/// Turns what the decompressor handed back into colours: its failure becomes
/// a failure to decompress that carries its report, its bytes are grouped.
pub fn colours_from(unpacked: Result<Vec<u8>, std::io::Error>) -> (res: ParsePacketResult<
    Vec<(u8, u8, u8)>,
>)
    ensures
        (match unpacked {
            Ok(raw) if raw@.len() % 3 == 0 => res is Ok && res->Ok_0@ == triplets_of(raw@),
            Ok(raw) => res is Err && res->Err_0@ == ErrorView::UnableToDecompress(
                Seq::empty(),
                DecompressCauseView::Ragged(raw@.len()),
            ),
            Err(cause) => (res matches Err(
                Error::UnableToDecompress(field, DecompressCause::Gzip(report)),
            ) && field@ == Seq::<char>::empty() && report == cause),
        }),
{
    match unpacked {
        Ok(raw) => group_triplets(&raw),
        Err(cause) => Err(Error::UnableToDecompress(String::new(), DecompressCause::Gzip(cause))),
    }
}

/// Reads the next `n` bytes of `buf` as a gzip stream of colours. A stream
/// that cannot be unpacked fails with the cause `Gzip`; one that unpacks to a
/// number of bytes that is no multiple of three fails with the cause `Ragged`
/// and that number.
pub fn read_rgb(n: u32, buf: &mut Cursor) -> (res: ParsePacketResult<Vec<(u8, u8, u8)>>)
    ensures
        final(buf)@ == after_read(old(buf)@, n as nat),
        n > old(buf)@.len() ==> is_too_small(res),
        n <= old(buf)@.len() ==> (match rgb_decoding(old(buf)@.take(n as int)) {
            Some(colours) => res is Ok && res->Ok_0@ == colours,
            None => res is Err && res->Err_0@ == ErrorView::UnableToDecompress(
                Seq::empty(),
                rgb_failure(old(buf)@.take(n as int)),
            ),
        }),
{
    match read_n(n, buf) {
        Err(e) => Err(e),
        Ok(bytes) => colours_from(gunzip(&bytes)),
    }
}

/// The blocks read so far followed by what the rest of the bytes hold.
pub open spec fn blocks_then(done: Seq<Seq<u8>>, rest: Option<Seq<Seq<u8>>>) -> Option<
    Seq<Seq<u8>>,
> {
    match rest {
        Some(tail) => Some(done + tail),
        None => None,
    }
}

/// Reads the next `n` bytes of `buf` as an array of blocks, each behind its
/// own four-byte length. The `n` bytes must end where a block ends.
pub fn read_arr_dyn(n: u32, buf: &mut Cursor) -> (res: ParsePacketResult<Vec<Vec<u8>>>)
    ensures
        final(buf)@ == after_read(old(buf)@, n as nat),
        n > old(buf)@.len() ==> is_too_small(res),
        n <= old(buf)@.len() ==> (match arr_dyn_decoding(old(buf)@.take(n as int)) {
            Some(blocks) => res is Ok && blocks_of(res->Ok_0@) == blocks,
            None => is_too_small(res),
        }),
{
    match read_n(n, buf) {
        Err(e) => Err(e),
        Ok(bytes) => {
            let ghost all = bytes@;
            let mut sub = Cursor::new(bytes);
            let mut array: Vec<Vec<u8>> = Vec::new();
            proof {
                assert(blocks_of(array@) + arr_dyn_decoding(all)->0 =~= arr_dyn_decoding(all)->0);
            }
            while !sub.is_empty()
                invariant
                    n <= old(buf)@.len(),
                    all == old(buf)@.take(n as int),
                    buf@ == after_read(old(buf)@, n as nat),
                    arr_dyn_decoding(all) == blocks_then(blocks_of(array@), arr_dyn_decoding(sub@)),
                decreases sub@.len(),
            {
                let ghost done = blocks_of(array@);
                let size: u32 = match read_u32(&mut sub) {
                    Ok(size) => size,
                    Err(e) => {
                        return Err(e);
                    },
                };
                let data = match read_n(size, &mut sub) {
                    Ok(data) => data,
                    Err(e) => {
                        return Err(e);
                    },
                };
                array.push(data);
                proof {
                    let tail = arr_dyn_decoding(sub@);
                    assert(blocks_of(array@) =~= done.push(data@));
                    if tail is Some {
                        assert(done.push(data@) + tail->0 =~= done + (seq![data@] + tail->0));
                    }
                }
            }
            proof {
                assert(blocks_of(array@) + Seq::<Seq<u8>>::empty() =~= blocks_of(array@));
            }
            Ok(array)
        },
    }
}

/// Reads the next `n` bytes of `buf` as an array of blocks of `sz` bytes each.
/// `n` must be a multiple of `sz`.
pub fn read_arr_fixed(n: u32, sz: u32, buf: &mut Cursor) -> (res: ParsePacketResult<Vec<Vec<u8>>>)
    ensures
        final(buf)@ == after_read(old(buf)@, n as nat),
        n > old(buf)@.len() ==> is_too_small(res),
        n <= old(buf)@.len() ==> (match arr_fixed_decoding(old(buf)@.take(n as int), sz as nat) {
            Some(blocks) => res is Ok && blocks_of(res->Ok_0@) == blocks,
            None => is_too_small(res),
        }),
        n <= old(buf)@.len() ==> (res is Ok <==> is_multiple(n as nat, sz as nat)),
{
    proof {
        if n <= old(buf)@.len() {
            lemma_arr_fixed_multiple(old(buf)@.take(n as int), sz as nat);
        }
    }
    match read_n(n, buf) {
        Err(e) => Err(e),
        Ok(bytes) => {
            let ghost all = bytes@;
            let mut sub = Cursor::new(bytes);
            let mut array: Vec<Vec<u8>> = Vec::new();
            proof {
                assert(blocks_of(array@) + arr_fixed_decoding(all, sz as nat)->0
                    =~= arr_fixed_decoding(all, sz as nat)->0);
            }
            while !sub.is_empty()
                invariant
                    n <= old(buf)@.len(),
                    all == old(buf)@.take(n as int),
                    buf@ == after_read(old(buf)@, n as nat),
                    arr_fixed_decoding(all, sz as nat) == blocks_then(
                        blocks_of(array@),
                        arr_fixed_decoding(sub@, sz as nat),
                    ),
                    arr_fixed_decoding(all, sz as nat) is Some <==> is_multiple(
                        n as nat,
                        sz as nat,
                    ),
                decreases sub@.len(),
            {
                let ghost done = blocks_of(array@);
                if sz == 0 {
                    return Err(Error::TooSmallPacket);
                }
                let data = match read_n(sz, &mut sub) {
                    Ok(data) => data,
                    Err(e) => {
                        return Err(e);
                    },
                };
                array.push(data);
                proof {
                    let tail = arr_fixed_decoding(sub@, sz as nat);
                    assert(blocks_of(array@) =~= done.push(data@));
                    if tail is Some {
                        assert(done.push(data@) + tail->0 =~= done + (seq![data@] + tail->0));
                    }
                }
            }
            proof {
                assert(blocks_of(array@) + Seq::<Seq<u8>>::empty() =~= blocks_of(array@));
            }
            Ok(array)
        },
    }
}

/// The capital of a lower-case ASCII letter; every other byte as it is.
pub fn to_upper(b: u8) -> (res: u8)
    ensures
        res == upper_byte(b),
{
    if 0x61 <= b && b <= 0x7a {
        b - 0x20
    } else {
        b
    }
}

/// Reads the two bytes of a field's name. Lower-case letters are read as
/// capitals.
pub fn read_name(buf: &mut Cursor) -> (res: ParsePacketResult<String>)
    ensures
        final(buf)@ == after_read(old(buf)@, 2),
        2 > old(buf)@.len() ==> is_too_small(res),
        2 <= old(buf)@.len() ==> (match name_decoding(old(buf)@.take(2)) {
            Some(name) => res is Ok && res->Ok_0@ == name,
            None => res is Err && res->Err_0@ == ErrorView::InvalidString(Seq::empty()),
        }),
{
    match read_n(2, buf) {
        Err(e) => Err(e),
        Ok(raw) => {
            let mut upper: Vec<u8> = Vec::new();
            upper.push(to_upper(raw[0]));
            upper.push(to_upper(raw[1]));
            proof {
                assert(upper@ =~= upper_bytes(raw@));
            }
            text_from(String::from_utf8(upper))
        },
    }
}

/// Reads the payload that stands under `tag`: the dispatch on the type tag.
/// `depth` says how many levels of key-value fields may still be entered. A
/// failure names no field yet.
pub fn read_payload(tag: u16, buf: &mut Cursor, depth: u32) -> (res: ParsePacketResult<FieldData>)
    ensures
        (match payload_decoding(tag, old(buf)@, depth as nat) {
            Ok((value, rest)) => res is Ok && res->Ok_0.value() == value && final(buf)@ == rest,
            Err(e) => res is Err && res->Err_0@ == e,
        }),
        final(buf)@.len() <= old(buf)@.len(),
    decreases depth, 0nat,
{
    match tag {
        0 => match read_bool(buf) {
            Ok(v) => Ok(FieldData::Bool(v)),
            Err(e) => Err(e),
        },
        1 => match read_u8(buf) {
            Ok(v) => Ok(FieldData::U8(v)),
            Err(e) => Err(e),
        },
        2 => match read_i8(buf) {
            Ok(v) => Ok(FieldData::I8(v)),
            Err(e) => Err(e),
        },
        3 => match read_u16(buf) {
            Ok(v) => Ok(FieldData::U16(v)),
            Err(e) => Err(e),
        },
        4 => match read_i16(buf) {
            Ok(v) => Ok(FieldData::I16(v)),
            Err(e) => Err(e),
        },
        5 => match read_u32(buf) {
            Ok(v) => Ok(FieldData::U32(v)),
            Err(e) => Err(e),
        },
        6 => match read_i32(buf) {
            Ok(v) => Ok(FieldData::I32(v)),
            Err(e) => Err(e),
        },
        7 => match read_u64(buf) {
            Ok(v) => Ok(FieldData::U64(v)),
            Err(e) => Err(e),
        },
        8 => match read_i64(buf) {
            Ok(v) => Ok(FieldData::I64(v)),
            Err(e) => Err(e),
        },
        9 => match read_u128(buf) {
            Ok(v) => Ok(FieldData::U128(v)),
            Err(e) => Err(e),
        },
        10 => match read_i128(buf) {
            Ok(v) => Ok(FieldData::I128(v)),
            Err(e) => Err(e),
        },
        11 => match read_f32_bits(buf) {
            Ok(v) => Ok(FieldData::F32(v)),
            Err(e) => Err(e),
        },
        12 => match read_f64_bits(buf) {
            Ok(v) => Ok(FieldData::F64(v)),
            Err(e) => Err(e),
        },
        13 => match read_u32(buf) {
            Err(e) => Err(e),
            Ok(size) => match read_str(size, buf) {
                Ok(v) => Ok(FieldData::String(v)),
                Err(e) => Err(e),
            },
        },
        14 => match read_u32(buf) {
            Err(e) => Err(e),
            Ok(size) => {
                if depth == 0 {
                    Err(Error::NestingTooDeep)
                } else {
                    match read_kv_pair(size, buf, depth - 1) {
                        Ok(map) => Ok(FieldData::KVPair(map)),
                        Err(e) => Err(e),
                    }
                }
            },
        },
        15 => match read_u32(buf) {
            Err(e) => Err(e),
            Ok(size) => match read_arr_dyn(size, buf) {
                Ok(v) => Ok(FieldData::Array(v)),
                Err(e) => Err(e),
            },
        },
        16 => match read_u32(buf) {
            Err(e) => Err(e),
            Ok(size) => match read_rgb(size, buf) {
                Ok(v) => Ok(FieldData::Rgb(v)),
                Err(e) => Err(e),
            },
        },
        _ => Err(Error::InvalidFieldType(String::new(), tag)),
    }
}

/// Reads one field: its name, its tag and the payload that the tag calls for.
/// A failure in the payload names the field.
pub fn read_field(buf: &mut Cursor, depth: u32) -> (res: ParsePacketResult<Field>)
    ensures
        (match field_decoding(old(buf)@, depth as nat) {
            Ok((entry, rest)) => res is Ok && (res->Ok_0.name@, res->Ok_0.data.value()) == entry
                && final(buf)@ == rest,
            Err(e) => res is Err && res->Err_0@ == e,
        }),
        final(buf)@.len() <= old(buf)@.len(),
    decreases depth, 1nat,
{
    let name = match read_name(buf) {
        Ok(name) => name,
        Err(e) => {
            return Err(e);
        },
    };
    let tag: u16 = match read_u16(buf) {
        Ok(tag) => tag,
        Err(e) => {
            return Err(e);
        },
    };
    match crate::net::packets::error::name(name.as_str(), read_payload(tag, buf, depth)) {
        Ok(data) => Ok(Field { name, data }),
        Err(e) => Err(e),
    }
}

/// Reads fields from `buf` until nothing is left of it and collects them by
/// name; a name that comes again replaces the value that it had. `depth` says
/// how many levels of key-value fields may be entered inside these fields.
pub fn read_fields(buf: &mut Cursor, depth: u32) -> (res: ParsePacketResult<FieldMap>)
    ensures
        (match fields_decoding(old(buf)@, depth as nat) {
            Ok(entries) => res is Ok && res->Ok_0@ == entries && final(buf)@.len() == 0,
            Err(e) => res is Err && res->Err_0@ == e,
        }),
        final(buf)@.len() <= old(buf)@.len(),
    decreases depth, 2nat,
{
    let mut map = FieldMap::new();
    while !buf.is_empty()
        invariant
            fields_from(map@, buf@, depth as nat) == fields_decoding(old(buf)@, depth as nat),
            buf@.len() <= old(buf)@.len(),
        decreases buf@.len(),
    {
        proof {
            lemma_field_consumes(buf@, depth as nat);
        }
        let field = match read_field(buf, depth) {
            Ok(field) => field,
            Err(e) => {
                return Err(e);
            },
        };
        map.insert(field.name, field.data);
    }
    Ok(map)
}

/// Reads the next `n` bytes of `buf` as a run of fields and collects them by
/// name, as `read_fields` does. The `n` bytes are taken even where they hold
/// no sound fields.
pub fn read_kv_pair(n: u32, buf: &mut Cursor, depth: u32) -> (res: ParsePacketResult<FieldMap>)
    ensures
        final(buf)@ == after_read(old(buf)@, n as nat),
        n > old(buf)@.len() ==> is_too_small(res),
        n <= old(buf)@.len() ==> (match fields_decoding(old(buf)@.take(n as int), depth as nat) {
            Ok(entries) => res is Ok && res->Ok_0@ == entries,
            Err(e) => res is Err && res->Err_0@ == e,
        }),
    decreases depth, 3nat,
{
    match read_n(n, buf) {
        Err(e) => Err(e),
        Ok(bytes) => {
            let mut sub = Cursor::new(bytes);
            read_fields(&mut sub, depth)
        },
    }
}

} // verus!
