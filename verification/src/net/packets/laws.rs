//! What is written is read back: the laws that tie the two directions of the
//! format together.

use vstd::prelude::*;
use crate::net::packets::dynamic::{
    arr_dyn_encoding, bytes_of_triplets, lemma_arr_dyn_round_trip, lemma_triplets_round_trip,
    prefixed, rgb_decoding, rgb_encoding,
};
use crate::net::packets::error::ErrorView;
use crate::net::packets::gzip::{gunzip_of, gzip_of};
use crate::net::packets::field::{
    distinct_names, lemma_position, lemma_position_is_first, lemma_upsert_distinct, position,
    upsert, Entries, FieldValue,
};
use crate::net::packets::grammar::{
    entries_fit, entries_unpack, field_decoding, field_encoding, fields_decoding, fields_encoding,
    fields_from, fixed_width, name_decoding, name_fits, payload_decoding,
    payload_encoding, tag_of, upper_bytes, value_fits, value_unpacks,
};
use crate::net::packets::scalar::{
    bool_to_le, i128_to_le, i16_to_le, i32_to_le, i64_to_le, i8_to_le, lemma_bool_round_trip,
    lemma_i128_round_trip, lemma_i16_round_trip, lemma_i32_round_trip, lemma_i64_round_trip,
    lemma_i8_round_trip, lemma_u128_round_trip, lemma_u16_round_trip, lemma_u32_round_trip,
    lemma_u64_round_trip, lemma_u8_round_trip, u128_to_le, u16_from_le, u16_to_le, u32_from_le,
    u32_to_le,
    u64_to_le, u8_to_le,
};
use crate::net::packets::text::{lemma_str_round_trip, str_encoding};
use crate::net::packets::{id_name, packet_decoding, packet_encoding, PacketView};

verus! {

/// Whether a name is read back as it was written: none of its bytes is a
/// lower-case ASCII letter.
pub open spec fn name_canonical(name: Seq<char>) -> bool {
    upper_bytes(str_encoding(name)) == str_encoding(name)
}

/// Whether a value is shaped as a decoder that enters `depth` levels leaves
/// it: key-value fields are nested at most `depth` deep, and in each of them
/// the names are distinct and canonical.
pub open spec fn value_canonical(value: FieldValue, depth: nat) -> bool
    decreases value,
{
    match value {
        FieldValue::KVPair(entries) => depth > 0 && distinct_names(entries) && forall|i: int|
            0 <= i < entries.len() ==> name_canonical((#[trigger] entries[i]).0)
                && value_canonical(entries[i].1, (depth - 1) as nat),
        _ => true,
    }
}

/// Whether the names are distinct and canonical and every value is canonical.
pub open spec fn entries_canonical(entries: Entries, depth: nat) -> bool {
    distinct_names(entries) && forall|i: int|
        0 <= i < entries.len() ==> name_canonical((#[trigger] entries[i]).0) && value_canonical(
            entries[i].1,
            depth,
        )
}

/// Whether a packet is well formed for a decoder that enters `depth` levels:
/// its fields can be written, their colours come back from their gzip
/// streams, they are canonical, and none of them is named `ID`.
pub open spec fn well_formed(packet: PacketView, depth: nat) -> bool {
    &&& entries_fit(packet.fields)
    &&& entries_unpack(packet.fields)
    &&& entries_canonical(packet.fields, depth)
    &&& position(packet.fields, id_name()) == packet.fields.len()
}

/// A payload behind its length comes apart again: the length, the payload,
/// and what stood behind it.
pub proof fn lemma_prefixed_split(payload: Seq<u8>, rest: Seq<u8>)
    requires
        payload.len() <= u32::MAX,
    ensures
        (prefixed(payload) + rest).len() == 4 + payload.len() + rest.len(),
        u32_from_le((prefixed(payload) + rest).take(4)) == payload.len(),
        (prefixed(payload) + rest).skip(4).take(payload.len() as int) == payload,
        (prefixed(payload) + rest).skip(4).skip(payload.len() as int) == rest,
{
    let bytes = prefixed(payload) + rest;
    lemma_u32_round_trip(payload.len() as u32);
    assert(bytes.take(4) =~= u32_to_le(payload.len() as u32));
    assert(bytes.skip(4) =~= payload + rest);
    assert(bytes.skip(4).take(payload.len() as int) =~= payload);
    assert(bytes.skip(4).skip(payload.len() as int) =~= rest);
}

/// A value that fits and is canonical is read back from its payload, and the
/// bytes behind the payload are left.
pub proof fn lemma_payload_round_trip(value: FieldValue, rest: Seq<u8>, depth: nat)
    requires
        value_fits(value),
        value_unpacks(value),
        value_canonical(value, depth),
    ensures
        payload_decoding(tag_of(value), payload_encoding(value) + rest, depth) == Ok::<
            (FieldValue, Seq<u8>),
            crate::net::packets::error::ErrorView,
        >((value, rest)),
    decreases value, 0nat,
{
    let bytes = payload_encoding(value) + rest;
    match value {
        FieldValue::Bool(x) => {
            lemma_bool_round_trip(x);
            assert(bytes.take(1) =~= bool_to_le(x));
            assert(bytes.skip(1) =~= rest);
        },
        FieldValue::U8(x) => {
            lemma_u8_round_trip(x);
            assert(bytes.take(1) =~= u8_to_le(x));
            assert(bytes.skip(1) =~= rest);
        },
        FieldValue::I8(x) => {
            lemma_i8_round_trip(x);
            assert(bytes.take(1) =~= i8_to_le(x));
            assert(bytes.skip(1) =~= rest);
        },
        FieldValue::U16(x) => {
            lemma_u16_round_trip(x);
            assert(bytes.take(2) =~= u16_to_le(x));
            assert(bytes.skip(2) =~= rest);
        },
        FieldValue::I16(x) => {
            lemma_i16_round_trip(x);
            assert(bytes.take(2) =~= i16_to_le(x));
            assert(bytes.skip(2) =~= rest);
        },
        FieldValue::U32(x) => {
            lemma_u32_round_trip(x);
            assert(bytes.take(4) =~= u32_to_le(x));
            assert(bytes.skip(4) =~= rest);
        },
        FieldValue::I32(x) => {
            lemma_i32_round_trip(x);
            assert(bytes.take(4) =~= i32_to_le(x));
            assert(bytes.skip(4) =~= rest);
        },
        FieldValue::U64(x) => {
            lemma_u64_round_trip(x);
            assert(bytes.take(8) =~= u64_to_le(x));
            assert(bytes.skip(8) =~= rest);
        },
        FieldValue::I64(x) => {
            lemma_i64_round_trip(x);
            assert(bytes.take(8) =~= i64_to_le(x));
            assert(bytes.skip(8) =~= rest);
        },
        FieldValue::U128(x) => {
            lemma_u128_round_trip(x);
            assert(bytes.take(16) =~= u128_to_le(x));
            assert(bytes.skip(16) =~= rest);
        },
        FieldValue::I128(x) => {
            lemma_i128_round_trip(x);
            assert(bytes.take(16) =~= i128_to_le(x));
            assert(bytes.skip(16) =~= rest);
        },
        FieldValue::F32(x) => {
            lemma_u32_round_trip(x);
            assert(bytes.take(4) =~= u32_to_le(x));
            assert(bytes.skip(4) =~= rest);
        },
        FieldValue::F64(x) => {
            lemma_u64_round_trip(x);
            assert(bytes.take(8) =~= u64_to_le(x));
            assert(bytes.skip(8) =~= rest);
        },
        FieldValue::String(text) => {
            lemma_prefixed_split(str_encoding(text), rest);
            lemma_str_round_trip(text);
        },
        FieldValue::KVPair(entries) => {
            lemma_prefixed_split(fields_encoding(entries), rest);
            assert(Entries::empty() + entries =~= entries);
            assert(entries.take(0) =~= Entries::empty());
            assert(Entries::empty() + entries.take(0) =~= Entries::empty());
            assert(entries.skip(0) =~= entries);
            lemma_fields_round_trip(Seq::empty(), entries, 0, (depth - 1) as nat);
        },
        FieldValue::Array(blocks) => {
            lemma_prefixed_split(arr_dyn_encoding(blocks), rest);
            lemma_arr_dyn_round_trip(blocks);
        },
        FieldValue::Rgb(colours) => {
            lemma_prefixed_split(rgb_encoding(colours), rest);
        },
    }
}

/// A field whose name and value fit and are canonical is read back from its
/// bytes, and the bytes behind it are left.
pub proof fn lemma_field_round_trip(name: Seq<char>, value: FieldValue, rest: Seq<u8>, depth: nat)
    requires
        name_fits(name),
        name_canonical(name),
        value_fits(value),
        value_unpacks(value),
        value_canonical(value, depth),
    ensures
        field_decoding(field_encoding(name, value) + rest, depth) == Ok::<
            ((Seq<char>, FieldValue), Seq<u8>),
            crate::net::packets::error::ErrorView,
        >(((name, value), rest)),
        (field_encoding(name, value) + rest).len() > rest.len(),
    decreases value, 1nat,
{
    let bytes = field_encoding(name, value) + rest;
    let tag = tag_of(value);
    lemma_str_round_trip(name);
    lemma_u16_round_trip(tag);
    lemma_payload_round_trip(value, rest, depth);
    assert(bytes.take(2) =~= str_encoding(name));
    assert(bytes.skip(2).take(2) =~= u16_to_le(tag));
    assert(bytes.skip(2).skip(2) =~= payload_encoding(value) + rest);
}

/// Reading the fields of `entries` from the `k`-th on, into `acc` and the
/// entries before the `k`-th, gives `acc` followed by all of `entries`.
pub proof fn lemma_fields_round_trip(acc: Entries, entries: Entries, k: int, depth: nat)
    requires
        0 <= k <= entries.len(),
        distinct_names(acc + entries),
        entries_fit(entries),
        entries_unpack(entries),
        forall|i: int|
            0 <= i < entries.len() ==> name_canonical((#[trigger] entries[i]).0)
                && value_canonical(entries[i].1, depth),
    ensures
        fields_from(acc + entries.take(k), fields_encoding(entries.skip(k)), depth) == Ok::<
            Entries,
            crate::net::packets::error::ErrorView,
        >(acc + entries),
    decreases entries, entries.len() - k,
{
    let done = acc + entries.take(k);
    let left = entries.skip(k);
    if k == entries.len() {
        assert(left =~= Entries::empty());
        assert(done =~= acc + entries);
    } else {
        let name = entries[k].0;
        let value = entries[k].1;
        let rest = fields_encoding(left.skip(1));
        assert(left[0] == entries[k]);
        assert(left.skip(1) =~= entries.skip(k + 1));
        lemma_field_round_trip(name, value, rest, depth);
        let all = acc + entries;
        assert forall|j: int| 0 <= j < done.len() implies (#[trigger] done[j]).0 != name by {
            assert(done[j] == all[j]);
            assert(all[acc.len() + k] == entries[k]);
        }
        lemma_position(done, name, done.len() as int);
        assert(upsert(done, name, value) =~= acc + entries.take(k + 1));
        lemma_fields_round_trip(acc, entries, k + 1, depth);
    }
}

/// The bytes of canonical entries that fit decode to those entries.
pub proof fn lemma_entries_round_trip(entries: Entries, depth: nat)
    requires
        entries_fit(entries),
        entries_unpack(entries),
        entries_canonical(entries, depth),
    ensures
        fields_decoding(fields_encoding(entries), depth) == Ok::<
            Entries,
            crate::net::packets::error::ErrorView,
        >(entries),
{
    assert(Entries::empty() + entries =~= entries);
    assert(Entries::empty() + entries.take(0) =~= Entries::empty());
    assert(entries.skip(0) =~= entries);
    lemma_fields_round_trip(Seq::empty(), entries, 0, depth);
}

/// The name `ID` takes the two bytes `I` and `D`, which are capitals.
pub proof fn lemma_id_name()
    ensures
        name_fits(id_name()),
        name_canonical(id_name()),
{
    vstd::utf8::is_ascii_chars_encode_utf8(id_name());
    let enc = str_encoding(id_name());
    assert(enc[0] == 0x49u8);
    assert(enc[1] == 0x44u8);
    assert(upper_bytes(enc) =~= enc);
}

/// Every well-formed packet is read back from its bytes: the same number and
/// the same fields in the same order.
pub proof fn lemma_packet_round_trip(packet: PacketView, depth: nat)
    requires
        well_formed(packet, depth),
    ensures
        packet_decoding(packet_encoding(packet), depth) == Ok::<
            PacketView,
            crate::net::packets::error::ErrorView,
        >(packet),
{
    let id = (id_name(), FieldValue::U32(packet.id));
    let acc = seq![id];
    let fields = packet.fields;
    let all = acc + fields;
    let rest = fields_encoding(fields);
    lemma_id_name();
    lemma_field_round_trip(id.0, id.1, rest, depth);
    lemma_position_is_first(fields, id_name());
    assert(upsert(Entries::empty(), id.0, id.1) =~= acc);
    assert forall|i: int, j: int|
        0 <= i < all.len() && 0 <= j < all.len() && i != j implies (#[trigger] all[i]).0 != (
        #[trigger] all[j]).0 by {
        if i > 0 {
            assert(all[i] == fields[i - 1]);
        }
        if j > 0 {
            assert(all[j] == fields[j - 1]);
        }
    }
    assert(acc + fields.take(0) =~= acc);
    assert(fields.skip(0) =~= fields);
    lemma_fields_round_trip(acc, fields, 0, depth);
    assert(fields_decoding(packet_encoding(packet), depth) == Ok::<
        Entries,
        crate::net::packets::error::ErrorView,
    >(all));
    lemma_position(all, id_name(), 0);
    assert(all.remove(0) =~= fields);
}

/// A payload of fixed width is not read from fewer bytes than its width, and
/// a payload behind a length is not read from fewer bytes than the length
/// declares: the failure is `TooSmallPacket`.
pub proof fn lemma_short_payload(tag: u16, bytes: Seq<u8>, depth: nat)
    requires
        tag <= 16,
        tag <= 12 ==> bytes.len() < fixed_width(tag),
        tag >= 13 ==> bytes.len() < 4 || u32_from_le(bytes.take(4)) > bytes.len() - 4,
        tag == 14 ==> depth > 0 || bytes.len() < 4,
    ensures
        payload_decoding(tag, bytes, depth) == Err::<(FieldValue, Seq<u8>), ErrorView>(
            ErrorView::TooSmallPacket,
        ),
{
}

/// A value is read under the tag under which it is written: each kind of
/// value has one tag, from 0 to 16, and each of these tags one kind.
pub proof fn lemma_tag_of_decoded(tag: u16, bytes: Seq<u8>, depth: nat)
    ensures
        payload_decoding(tag, bytes, depth) is Ok ==> tag <= 16 && tag_of(
            payload_decoding(tag, bytes, depth)->Ok_0.0,
        ) == tag,
{
}

/// A key-value field is not entered where no level is left to enter: once
/// its length is there, the failure is `NestingTooDeep`, whatever follows.
pub proof fn lemma_nesting_too_deep(bytes: Seq<u8>)
    requires
        bytes.len() >= 4,
    ensures
        payload_decoding(14, bytes, 0) == Err::<(FieldValue, Seq<u8>), ErrorView>(
            ErrorView::NestingTooDeep,
        ),
{
}

/// A field is not read from fewer than the four bytes of its name and tag.
pub proof fn lemma_short_field(bytes: Seq<u8>, depth: nat)
    requires
        0 < bytes.len() < 4,
    ensures
        field_decoding(bytes, depth) is Err,
        bytes.len() < 2 ==> field_decoding(bytes, depth) == Err::<
            ((Seq<char>, FieldValue), Seq<u8>),
            ErrorView,
        >(ErrorView::TooSmallPacket),
{
}

/// Colours come back from their gzip stream, provided that the compressor's
/// stream of their flat bytes unpacks to those bytes.
pub proof fn lemma_rgb_round_trip(colours: Seq<(u8, u8, u8)>)
    requires
        gzip_of(bytes_of_triplets(colours)) matches Some(stream) && gunzip_of(stream) == Some(
            bytes_of_triplets(colours),
        ),
    ensures
        rgb_decoding(rgb_encoding(colours)) == Some(colours),
{
    lemma_triplets_round_trip(colours);
}

/// Reading fields into entries with distinct names leaves the names distinct.
pub proof fn lemma_fields_from_distinct(acc: Entries, bytes: Seq<u8>, depth: nat)
    requires
        distinct_names(acc),
    ensures
        fields_from(acc, bytes, depth) is Ok ==> distinct_names(
            fields_from(acc, bytes, depth)->Ok_0,
        ),
    decreases bytes.len(),
{
    if bytes.len() != 0 {
        if let Ok((entry, rest)) = field_decoding(bytes, depth) {
            if rest.len() < bytes.len() {
                lemma_upsert_distinct(acc, entry.0, entry.1);
                lemma_fields_from_distinct(upsert(acc, entry.0, entry.1), rest, depth);
            }
        }
    }
}

/// In every packet that is decoded, no two fields share a name and no field
/// is named `ID`.
pub proof fn lemma_decoded_packet_shape(bytes: Seq<u8>, depth: nat)
    ensures
        packet_decoding(bytes, depth) is Ok ==> distinct_names(
            packet_decoding(bytes, depth)->Ok_0.fields,
        ),
        packet_decoding(bytes, depth) is Ok ==> position(
            packet_decoding(bytes, depth)->Ok_0.fields,
            id_name(),
        ) == packet_decoding(bytes, depth)->Ok_0.fields.len(),
{
    if packet_decoding(bytes, depth) is Ok {
        let entries = fields_decoding(bytes, depth)->Ok_0;
        let packet = packet_decoding(bytes, depth)->Ok_0;
        let at = position(entries, id_name());
        lemma_fields_from_distinct(Seq::empty(), bytes, depth);
        lemma_position_is_first(entries, id_name());
        let fields = packet.fields;
        assert(fields =~= entries.remove(at));
        assert forall|j: int| 0 <= j < fields.len() implies (#[trigger] fields[j]).0
            != id_name() by {
            if j < at {
                assert(fields[j] == entries[j]);
            } else {
                assert(fields[j] == entries[j + 1]);
            }
        }
        assert forall|i: int, j: int|
            0 <= i < fields.len() && 0 <= j < fields.len() && i != j implies (
        #[trigger] fields[i]).0 != (#[trigger] fields[j]).0 by {
            let a = if i < at { i } else { i + 1 };
            let b = if j < at { j } else { j + 1 };
            assert(fields[i] == entries[a]);
            assert(fields[j] == entries[b]);
        }
        lemma_position(fields, id_name(), fields.len() as int);
    }
}

/// A name that is read takes two bytes and is canonical.
pub proof fn lemma_name_decoded(raw: Seq<u8>)
    requires
        raw.len() == 2,
        name_decoding(raw) is Some,
    ensures
        name_fits(name_decoding(raw)->0),
        name_canonical(name_decoding(raw)->0),
{
    let upper = upper_bytes(raw);
    vstd::utf8::decode_utf8_encode_utf8(upper);
    assert(upper_bytes(upper) =~= upper);
}

/// A value that is read with `depth` levels to enter is canonical at that depth.
pub proof fn lemma_payload_canonical(tag: u16, bytes: Seq<u8>, depth: nat)
    ensures
        payload_decoding(tag, bytes, depth) is Ok ==> value_canonical(
            payload_decoding(tag, bytes, depth)->Ok_0.0,
            depth,
        ),
    decreases depth, bytes.len(), 0nat,
{
    if payload_decoding(tag, bytes, depth) is Ok && tag == 14 {
        let n = u32_from_le(bytes.take(4)) as int;
        let body = bytes.skip(4).take(n);
        lemma_fields_canonical(Seq::empty(), body, (depth - 1) as nat);
    }
}

/// A field that is read has a canonical name of two bytes and a canonical value.
pub proof fn lemma_field_canonical(bytes: Seq<u8>, depth: nat)
    ensures
        field_decoding(bytes, depth) is Ok ==> name_fits(field_decoding(bytes, depth)->Ok_0.0.0)
            && name_canonical(field_decoding(bytes, depth)->Ok_0.0.0) && value_canonical(
            field_decoding(bytes, depth)->Ok_0.0.1,
            depth,
        ),
    decreases depth, bytes.len(), 1nat,
{
    if field_decoding(bytes, depth) is Ok {
        let rest = bytes.skip(2);
        assert(bytes.take(2).len() == 2);
        lemma_name_decoded(bytes.take(2));
        lemma_payload_canonical(u16_from_le(rest.take(2)), rest.skip(2), depth);
    }
}

/// Whether every name takes two bytes.
pub open spec fn names_fit(entries: Entries) -> bool {
    forall|i: int| 0 <= i < entries.len() ==> name_fits((#[trigger] entries[i]).0)
}

/// Reading fields into canonical entries leaves the entries canonical.
pub proof fn lemma_fields_canonical(acc: Entries, bytes: Seq<u8>, depth: nat)
    requires
        entries_canonical(acc, depth),
        names_fit(acc),
    ensures
        fields_from(acc, bytes, depth) is Ok ==> entries_canonical(
            fields_from(acc, bytes, depth)->Ok_0,
            depth,
        ) && names_fit(fields_from(acc, bytes, depth)->Ok_0),
    decreases depth, bytes.len(), 2nat,
{
    if bytes.len() != 0 {
        if let Ok((entry, rest)) = field_decoding(bytes, depth) {
            if rest.len() < bytes.len() {
                lemma_field_canonical(bytes, depth);
                lemma_upsert_distinct(acc, entry.0, entry.1);
                lemma_position_is_first(acc, entry.0);
                let next = upsert(acc, entry.0, entry.1);
                assert forall|i: int| 0 <= i < next.len() implies name_canonical(
                    (#[trigger] next[i]).0,
                ) && value_canonical(next[i].1, depth) && name_fits(next[i].0) by {
                    if i < acc.len() && i != position(acc, entry.0) {
                        assert(next[i] == acc[i]);
                    }
                }
                lemma_fields_canonical(next, rest, depth);
            }
        }
    }
}

/// Every packet that is decoded is canonical: no two fields of one level
/// share a name, every name at the top takes two bytes, no name has a
/// lower-case ASCII letter, and key-value fields are nested no deeper than
/// the decoder was told to enter.
pub proof fn lemma_decoded_packet_canonical(bytes: Seq<u8>, depth: nat)
    ensures
        packet_decoding(bytes, depth) is Ok ==> entries_canonical(
            packet_decoding(bytes, depth)->Ok_0.fields,
            depth,
        ) && names_fit(packet_decoding(bytes, depth)->Ok_0.fields),
{
    if packet_decoding(bytes, depth) is Ok {
        let entries = fields_decoding(bytes, depth)->Ok_0;
        let fields = packet_decoding(bytes, depth)->Ok_0.fields;
        let at = position(entries, id_name());
        lemma_fields_canonical(Seq::empty(), bytes, depth);
        lemma_decoded_packet_shape(bytes, depth);
        lemma_position_is_first(entries, id_name());
        assert(fields =~= entries.remove(at));
        assert forall|i: int| 0 <= i < fields.len() implies name_canonical(
            (#[trigger] fields[i]).0,
        ) && value_canonical(fields[i].1, depth) && name_fits(fields[i].0) by {
            if i < at {
                assert(fields[i] == entries[i]);
            } else {
                assert(fields[i] == entries[i + 1]);
            }
        }
    }
}

} // verus!
