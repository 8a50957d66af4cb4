//! The packet format: named, typed fields in a self-describing byte layout.
//!
//! A packet is a run of fields. One of them is named `ID` and has a payload
//! of four bytes; it gives the packet its number and is not kept among the
//! fields. When a packet is written, the `ID` field comes first, as a `u32`,
//! and the other fields follow in their order.

use vstd::prelude::*;
use crate::net::packets::cursor::Cursor;
use crate::net::packets::deserialize::read_fields;
use crate::net::packets::error::{Error, ErrorView, ParsePacketResult};
use crate::net::packets::field::{
    distinct_names, position, Entries, FieldData, FieldMap, FieldValue,
};
use crate::net::packets::grammar::{
    entries_fit, entries_unpack, field_encoding, fields_decoding, fields_encoding,
};
use crate::net::packets::laws::{
    entries_canonical, lemma_decoded_packet_canonical, lemma_decoded_packet_shape,
    lemma_packet_round_trip, names_fit, well_formed,
};
use crate::net::packets::le::{
    lemma_le_bytes_len, lemma_le_value_of_bytes, lemma_pow256_values, unsigned_of,
};
use crate::net::packets::scalar::{i32_to_le, u32_from_le};
use crate::net::packets::serialize::{write_field, write_fields};

pub mod cursor;
pub mod deserialize;
pub mod dynamic;
pub mod error;
pub mod field;
pub mod grammar;
pub mod gzip;
pub mod laws;
pub mod le;
pub mod scalar;
pub mod serialize;
pub mod text;

verus! {

/// How many levels of key-value fields `Packet::from_bytes` enters.
pub const DEFAULT_MAX_DEPTH: u32 = 32;

/// The name of the field that gives a packet its number.
pub open spec fn id_name() -> Seq<char> {
    seq!['I', 'D']
}

/// The number that the value of an `ID` field gives: the four bytes of its
/// payload read as a `u32`. A value of another width gives none.
pub open spec fn id_of(value: FieldValue) -> Option<u32> {
    match value {
        FieldValue::U32(v) => Some(v),
        FieldValue::I32(v) => Some(u32_from_le(i32_to_le(v))),
        FieldValue::F32(bits) => Some(bits),
        _ => None,
    }
}

/// A packet as the contracts speak of it.
pub struct PacketView {
    pub id: u32,
    pub fields: Entries,
}

/// The packet that `bytes` hold.
pub open spec fn packet_decoding(bytes: Seq<u8>, depth: nat) -> Result<PacketView, ErrorView> {
    match fields_decoding(bytes, depth) {
        Err(e) => Err(e),
        Ok(entries) => {
            let at = position(entries, id_name());
            if at < entries.len() && id_of(entries[at].1) is Some {
                Ok(PacketView { id: id_of(entries[at].1)->0, fields: entries.remove(at) })
            } else {
                Err(ErrorView::NoId)
            }
        },
    }
}

/// The bytes of a packet: the `ID` field as a `u32`, then the other fields.
pub open spec fn packet_encoding(packet: PacketView) -> Seq<u8> {
    field_encoding(id_name(), FieldValue::U32(packet.id)) + fields_encoding(packet.fields)
}

/// A packet to be sent from either end: a number and named fields.
#[derive(Debug, PartialEq, Eq)]
pub struct Packet {
    /// The number of the packet.
    id: u32,
    /// The other fields and their values.
    fields: FieldMap,
}

impl View for Packet {
    type V = PacketView;

    closed spec fn view(&self) -> PacketView {
        PacketView { id: self.id, fields: self.fields@ }
    }
}

/// The four bytes of an `i32` read as a `u32`.
pub fn reinterpret(v: i32) -> (res: u32)
    ensures
        res == u32_from_le(i32_to_le(v)),
{
    proof {
        lemma_pow256_values();
        lemma_le_bytes_len(unsigned_of(v as int, 4), 4);
        lemma_le_value_of_bytes(unsigned_of(v as int, 4), 4);
    }
    if v >= 0 {
        v as u32
    } else {
        (v - i32::MIN) as u32 + 0x8000_0000
    }
}

impl Packet {
    /// A packet with the number `id` and the given fields.
    pub fn new(id: u32, fields: FieldMap) -> (res: Self)
        ensures
            res@ == (PacketView { id: id, fields: fields@ }),
    {
        Packet { id, fields }
    }

    /// The number of the packet.
    pub fn id(&self) -> (res: u32)
        ensures
            res == self@.id,
    {
        self.id
    }

    /// The fields of the packet, without the `ID` field.
    pub fn fields(&self) -> (res: &FieldMap)
        ensures
            res@ == self@.fields,
    {
        &self.fields
    }

    /// Decodes a whole buffer as one packet, entering at most
    /// `DEFAULT_MAX_DEPTH` levels of key-value fields.
    pub fn from_bytes(bytes: Vec<u8>) -> (res: ParsePacketResult<Self>)
        ensures
            (match packet_decoding(bytes@, DEFAULT_MAX_DEPTH as nat) {
                Ok(packet) => res is Ok && res->Ok_0@ == packet,
                Err(e) => res is Err && res->Err_0@ == e,
            }),
            res is Ok ==> distinct_names(res->Ok_0@.fields) && position(
                res->Ok_0@.fields,
                id_name(),
            ) == res->Ok_0@.fields.len(),
            res is Ok ==> entries_canonical(res->Ok_0@.fields, DEFAULT_MAX_DEPTH as nat)
                && names_fit(res->Ok_0@.fields),
    {
        Self::from_bytes_bounded(bytes, DEFAULT_MAX_DEPTH)
    }

    /// Decodes a whole buffer as one packet, entering at most `max_depth`
    /// levels of key-value fields. The packet is canonical: no two fields
    /// share a name, none is named `ID`, and every name is in capitals.
    pub fn from_bytes_bounded(bytes: Vec<u8>, max_depth: u32) -> (res: ParsePacketResult<Self>)
        ensures
            (match packet_decoding(bytes@, max_depth as nat) {
                Ok(packet) => res is Ok && res->Ok_0@ == packet,
                Err(e) => res is Err && res->Err_0@ == e,
            }),
            res is Ok ==> distinct_names(res->Ok_0@.fields) && position(
                res->Ok_0@.fields,
                id_name(),
            ) == res->Ok_0@.fields.len(),
            res is Ok ==> entries_canonical(res->Ok_0@.fields, max_depth as nat) && names_fit(
                res->Ok_0@.fields,
            ),
    {
        proof {
            lemma_decoded_packet_shape(bytes@, max_depth as nat);
            lemma_decoded_packet_canonical(bytes@, max_depth as nat);
        }
        let mut cursor = Cursor::new(bytes);
        let mut fields = match read_fields(&mut cursor, max_depth) {
            Ok(fields) => fields,
            Err(e) => {
                return Err(e);
            },
        };
        proof {
            reveal_strlit("ID");
            assert("ID"@ =~= id_name());
        }
        match fields.remove("ID") {
            Some(FieldData::U32(v)) => Ok(Packet { id: v, fields }),
            Some(FieldData::I32(v)) => Ok(Packet { id: reinterpret(v), fields }),
            Some(FieldData::F32(bits)) => Ok(Packet { id: bits, fields }),
            _ => Err(Error::NoId),
        }
    }

    /// Encodes the packet: the `ID` field first, then the other fields in
    /// their order. This succeeds exactly where the fields fit: every name
    /// takes two bytes, every length fits in four bytes, and the compressor
    /// gives a stream for every run of colours. The bytes of a packet whose
    /// fields are canonical, none of them named `ID`, decode to the packet
    /// again.
    pub fn to_bytes(&self) -> (res: Option<Vec<u8>>)
        ensures
            res is Some <==> entries_fit(self@.fields),
            res is Some ==> res->0@ == packet_encoding(self@),
            res is Some ==> entries_unpack(self@.fields),
            res is Some && entries_canonical(self@.fields, DEFAULT_MAX_DEPTH as nat) && position(
                self@.fields,
                id_name(),
            ) == self@.fields.len() ==> packet_decoding(res->0@, DEFAULT_MAX_DEPTH as nat) == Ok::<
                PacketView,
                ErrorView,
            >(self@),
    {
        let mut out: Vec<u8> = Vec::new();
        proof {
            reveal_strlit("ID");
            assert("ID"@ =~= id_name());
            vstd::utf8::is_ascii_chars_encode_utf8(id_name());
        }
        if !write_field("ID", &FieldData::U32(self.id), &mut out) {
            return None;
        }
        if !write_fields(&self.fields, &mut out) {
            return None;
        }
        proof {
            assert(out@ =~= packet_encoding(self@));
            if well_formed(self@, DEFAULT_MAX_DEPTH as nat) {
                lemma_packet_round_trip(self@, DEFAULT_MAX_DEPTH as nat);
            }
        }
        Some(out)
    }
}

} // verus!
