use birdseye_common::net::packets::cursor::Cursor;
use birdseye_common::net::packets::deserialize::{
    read_field, read_fields, read_kv_pair, read_payload, read_rgb, read_str,
};
use birdseye_common::net::packets::error::{DecompressCause, Error};
use birdseye_common::net::packets::field::{Field, FieldData, FieldMap};
use birdseye_common::net::packets::serialize::{
    tag, write_arr_dyn, write_arr_fixed, write_bool, write_bytes, write_f32_bits, write_f64_bits,
    write_field, write_fields, write_i128, write_i16, write_i32, write_i64, write_i8,
    write_kv_pair, write_packed, write_payload, write_prefixed, write_rgb, write_str, write_u128,
    write_u16, write_u32, write_u64, write_u8,
};
use birdseye_common::net::packets::{reinterpret, Packet, DEFAULT_MAX_DEPTH};
use birdseye_common::{Process, ProcessStatus, User};
use std::io::{Read, Write};

fn gz(bytes: &[u8]) -> Vec<u8> {
    let mut e = flate2::write::GzEncoder::new(Vec::new(), flate2::Compression::default());
    e.write_all(bytes).unwrap();
    e.finish().unwrap()
}

fn gunzip(bytes: &[u8]) -> Vec<u8> {
    let mut d = flate2::read::GzDecoder::new(bytes);
    let mut out = Vec::new();
    d.read_to_end(&mut out).unwrap();
    out
}

fn id_field(id: u32) -> Vec<u8> {
    let mut v = vec![0x49, 0x44, 5, 0];
    v.extend_from_slice(&id.to_le_bytes());
    v
}

#[test]
fn decodes_a_packet_with_only_an_id() {
    let p = Packet::from_bytes(vec![0x49, 0x44, 0x05, 0x00, 0x01, 0x00, 0x00, 0x00]).unwrap();
    assert_eq!(p.id(), 1);
    assert!(p.fields().is_empty());
    assert_eq!(p.fields().len(), 0);
}

#[test]
fn truncated_packet_is_too_small() {
    let res = Packet::from_bytes(vec![0x49, 0x44, 0x05, 0x00, 0x01, 0x00, 0x00]);
    assert!(matches!(res, Err(Error::TooSmallPacket)));
}

#[test]
fn unknown_tag_names_the_field() {
    let res = Packet::from_bytes(vec![b'X', b'Y', 99, 0, 1, 2, 3]);
    match res {
        Err(Error::InvalidFieldType(field, tag)) => {
            assert_eq!(field, "XY");
            assert_eq!(tag, 99);
        }
        other => panic!("{:?}", other),
    }
    let res = Packet::from_bytes(vec![b'X', b'Y', 17, 0]);
    assert!(matches!(res, Err(Error::InvalidFieldType(field, 17)) if field == "XY"));
}

#[test]
fn empty_kv_pair_is_an_empty_map() {
    let mut bytes = id_field(7);
    bytes.extend_from_slice(&[b'K', b'V', 14, 0, 0, 0, 0, 0]);
    let p = Packet::from_bytes(bytes).unwrap();
    assert_eq!(p.id(), 7);
    assert_eq!(p.fields().len(), 1);
    match p.fields().get("KV") {
        Some(FieldData::KVPair(m)) => {
            assert!(m.is_empty());
            assert_eq!(m.len(), 0);
        }
        other => panic!("{:?}", other),
    }
}

#[test]
fn rgb_field_decodes_to_triplets() {
    let blob = gz(&[1, 2, 3, 4, 5, 6]);
    let mut bytes = id_field(2);
    bytes.extend_from_slice(&[b'P', b'X', 16, 0]);
    bytes.extend_from_slice(&(blob.len() as u32).to_le_bytes());
    bytes.extend_from_slice(&blob);
    let p = Packet::from_bytes(bytes).unwrap();
    assert_eq!(p.fields().get("PX"), Some(&FieldData::Rgb(vec![(1, 2, 3), (4, 5, 6)])));
}

#[test]
fn missing_or_misshapen_id() {
    assert!(matches!(Packet::from_bytes(vec![]), Err(Error::NoId)));
    assert!(matches!(Packet::from_bytes(vec![b'A', b'B', 1, 0, 9]), Err(Error::NoId)));
    assert!(matches!(Packet::from_bytes(vec![b'I', b'D', 3, 0, 9, 0]), Err(Error::NoId)));
    let eight = vec![b'I', b'D', 7, 0, 1, 0, 0, 0, 0, 0, 0, 0];
    assert!(matches!(Packet::from_bytes(eight), Err(Error::NoId)));
}

#[test]
fn id_is_any_four_byte_payload() {
    let p = Packet::from_bytes(vec![b'I', b'D', 6, 0, 0xff, 0xff, 0xff, 0xff]).unwrap();
    assert_eq!(p.id(), u32::MAX);
    let p = Packet::from_bytes(vec![b'I', b'D', 11, 0, 0, 0, 0x80, 0x3f]).unwrap();
    assert_eq!(p.id(), 1.0f32.to_bits());
    assert_eq!(reinterpret(-1), u32::MAX);
    assert_eq!(reinterpret(i32::MIN), 0x8000_0000);
    assert_eq!(reinterpret(5), 5);
}

#[test]
fn lower_case_names_are_read_as_capitals() {
    let mut bytes = vec![b'i', b'd', 5, 0, 3, 0, 0, 0];
    bytes.extend_from_slice(&[b'a', b'b', 1, 0, 42]);
    let p = Packet::from_bytes(bytes).unwrap();
    assert_eq!(p.id(), 3);
    assert_eq!(p.fields().get("AB"), Some(&FieldData::U8(42)));
    assert_eq!(p.fields().get("ab"), None);
}

#[test]
fn a_name_that_comes_again_wins() {
    let mut bytes = id_field(1);
    bytes.extend_from_slice(&[b'A', b'B', 1, 0, 1]);
    bytes.extend_from_slice(&[b'C', b'D', 1, 0, 2]);
    bytes.extend_from_slice(&[b'A', b'B', 0, 0, 1]);
    bytes.extend_from_slice(&id_field(9));
    let p = Packet::from_bytes(bytes).unwrap();
    assert_eq!(p.id(), 9);
    assert_eq!(p.fields().len(), 2);
    assert_eq!(p.fields().get("AB"), Some(&FieldData::Bool(true)));
    assert_eq!(p.fields().entry(0).name, "AB");
    assert_eq!(p.fields().entry(1).name, "CD");
    assert_eq!(p.fields().entry(1).data, FieldData::U8(2));
}

#[test]
fn every_fixed_tag_decodes() {
    let mut bytes = id_field(1);
    bytes.extend_from_slice(&[b'T', b'0', 0, 0, 2]);
    bytes.extend_from_slice(&[b'T', b'1', 1, 0, 250]);
    bytes.extend_from_slice(&[b'T', b'2', 2, 0, 0xfe]);
    bytes.extend_from_slice(&[b'T', b'3', 3, 0, 0x34, 0x12]);
    bytes.extend_from_slice(&[b'T', b'4', 4, 0, 0xff, 0xff]);
    bytes.extend_from_slice(&[b'T', b'5', 5, 0, 4, 3, 2, 1]);
    bytes.extend_from_slice(&[b'T', b'6', 6, 0, 0, 0, 0, 0x80]);
    bytes.extend_from_slice(&[b'T', b'7', 7, 0]);
    bytes.extend_from_slice(&u64::MAX.to_le_bytes());
    bytes.extend_from_slice(&[b'T', b'8', 8, 0]);
    bytes.extend_from_slice(&(-3i64).to_le_bytes());
    bytes.extend_from_slice(&[b'T', b'9', 9, 0]);
    bytes.extend_from_slice(&(u128::MAX - 1).to_le_bytes());
    bytes.extend_from_slice(&[b'T', b'A', 10, 0]);
    bytes.extend_from_slice(&i128::MIN.to_le_bytes());
    bytes.extend_from_slice(&[b'T', b'B', 11, 0]);
    bytes.extend_from_slice(&1.5f32.to_le_bytes());
    bytes.extend_from_slice(&[b'T', b'C', 12, 0]);
    bytes.extend_from_slice(&f64::NAN.to_le_bytes());
    let p = Packet::from_bytes(bytes).unwrap();
    let f = p.fields();
    assert_eq!(f.len(), 13);
    assert_eq!(f.get("T0"), Some(&FieldData::Bool(true)));
    assert_eq!(f.get("T1"), Some(&FieldData::U8(250)));
    assert_eq!(f.get("T2"), Some(&FieldData::I8(-2)));
    assert_eq!(f.get("T3"), Some(&FieldData::U16(0x1234)));
    assert_eq!(f.get("T4"), Some(&FieldData::I16(-1)));
    assert_eq!(f.get("T5"), Some(&FieldData::U32(0x0102_0304)));
    assert_eq!(f.get("T6"), Some(&FieldData::I32(i32::MIN)));
    assert_eq!(f.get("T7"), Some(&FieldData::U64(u64::MAX)));
    assert_eq!(f.get("T8"), Some(&FieldData::I64(-3)));
    assert_eq!(f.get("T9"), Some(&FieldData::U128(u128::MAX - 1)));
    assert_eq!(f.get("TA"), Some(&FieldData::I128(i128::MIN)));
    assert_eq!(f.get("TB"), Some(&FieldData::F32(1.5f32.to_bits())));
    assert_eq!(f.get("TC"), Some(&FieldData::F64(f64::NAN.to_bits())));
}

#[test]
fn dynamic_tags_decode() {
    let mut bytes = id_field(1);
    bytes.extend_from_slice(&[b'S', b'T', 13, 0, 2, 0, 0, 0, b'h', b'i']);
    bytes.extend_from_slice(&[b'A', b'R', 15, 0, 9, 0, 0, 0]);
    bytes.extend_from_slice(&[1, 0, 0, 0, 7, 0, 0, 0, 0]);
    bytes.extend_from_slice(&[b'K', b'V', 14, 0, 5, 0, 0, 0, b'i', b'n', 1, 0, 4]);
    let p = Packet::from_bytes(bytes).unwrap();
    assert_eq!(p.fields().get("ST"), Some(&FieldData::String(String::from("hi"))));
    assert_eq!(p.fields().get("AR"), Some(&FieldData::Array(vec![vec![7], vec![]])));
    let mut inner = FieldMap::new();
    inner.insert(String::from("IN"), FieldData::U8(4));
    assert_eq!(p.fields().get("KV"), Some(&FieldData::KVPair(inner)));
}

#[test]
fn failures_in_a_payload_name_the_field() {
    let mut bytes = id_field(1);
    bytes.extend_from_slice(&[b'S', b'T', 13, 0, 1, 0, 0, 0, 0xff]);
    match Packet::from_bytes(bytes) {
        Err(Error::InvalidString(field, _)) => assert_eq!(field, "ST"),
        other => panic!("{:?}", other),
    }
    let mut bytes = id_field(1);
    bytes.extend_from_slice(&[b'P', b'X', 16, 0, 2, 0, 0, 0, 1, 2]);
    match Packet::from_bytes(bytes) {
        Err(Error::UnableToDecompress(field, DecompressCause::Gzip(_))) => assert_eq!(field, "PX"),
        other => panic!("{:?}", other),
    }
    let blob = gz(&[1, 2]);
    let mut bytes = id_field(1);
    bytes.extend_from_slice(&[b'P', b'X', 16, 0]);
    bytes.extend_from_slice(&(blob.len() as u32).to_le_bytes());
    bytes.extend_from_slice(&blob);
    match Packet::from_bytes(bytes) {
        Err(Error::UnableToDecompress(field, DecompressCause::Ragged(2))) => {
            assert_eq!(field, "PX")
        }
        other => panic!("{:?}", other),
    }
    // the innermost field is the one that is named
    let mut bytes = id_field(1);
    bytes.extend_from_slice(&[b'K', b'V', 14, 0, 9, 0, 0, 0]);
    bytes.extend_from_slice(&[b'S', b'T', 13, 0, 1, 0, 0, 0, 0xff]);
    match Packet::from_bytes(bytes) {
        Err(Error::InvalidString(field, _)) => assert_eq!(field, "ST"),
        other => panic!("{:?}", other),
    }
    let mut bytes = id_field(1);
    bytes.extend_from_slice(&[b'K', b'V', 14, 0, 4, 0, 0, 0, b'Z', b'Z', 77, 0]);
    assert!(matches!(
        Packet::from_bytes(bytes),
        Err(Error::InvalidFieldType(field, 77)) if field == "ZZ"
    ));
}

#[test]
fn a_name_that_is_no_text_fails() {
    match Packet::from_bytes(vec![0xff, 0xff, 5, 0, 1, 0, 0, 0]) {
        Err(Error::InvalidString(field, _)) => assert_eq!(field, ""),
        other => panic!("{:?}", other),
    }
}

#[test]
fn nesting_is_bounded() {
    let mut bytes = id_field(1);
    bytes.extend_from_slice(&[b'K', b'V', 14, 0, 8, 0, 0, 0]);
    bytes.extend_from_slice(&[b'I', b'N', 14, 0, 0, 0, 0, 0]);
    assert!(matches!(
        Packet::from_bytes_bounded(bytes.clone(), 0),
        Err(Error::NestingTooDeep)
    ));
    assert!(matches!(
        Packet::from_bytes_bounded(bytes.clone(), 1),
        Err(Error::NestingTooDeep)
    ));
    let p = Packet::from_bytes_bounded(bytes.clone(), 2).unwrap();
    assert_eq!(p.fields().len(), 1);
    assert!(Packet::from_bytes(bytes).is_ok());
    assert_eq!(DEFAULT_MAX_DEPTH, 32);
}

#[test]
fn nesting_deeper_than_the_default_fails() {
    let mut inner: Vec<u8> = Vec::new();
    for _ in 0..33 {
        let mut outer = vec![b'K', b'V', 14, 0];
        outer.extend_from_slice(&(inner.len() as u32).to_le_bytes());
        outer.extend_from_slice(&inner);
        inner = outer;
    }
    let mut bytes = id_field(1);
    bytes.extend_from_slice(&inner);
    assert!(matches!(Packet::from_bytes(bytes.clone()), Err(Error::NestingTooDeep)));
    assert!(Packet::from_bytes_bounded(bytes, 33).is_ok());
}

#[test]
fn kv_pair_cut_short() {
    let mut bytes = id_field(1);
    bytes.extend_from_slice(&[b'K', b'V', 14, 0, 9, 0, 0, 0, 1]);
    assert!(matches!(Packet::from_bytes(bytes), Err(Error::TooSmallPacket)));
    let mut bytes = id_field(1);
    bytes.extend_from_slice(&[b'K', b'V', 14, 0, 3, 0, 0, 0, b'A', b'B', 1]);
    assert!(matches!(Packet::from_bytes(bytes), Err(Error::TooSmallPacket)));
}

#[test]
fn read_kv_pair_takes_its_bytes() {
    let mut buf = Cursor::new(vec![b'a', b'b', 1, 0, 5, 77]);
    let map = read_kv_pair(5, &mut buf, 0).unwrap();
    assert_eq!(map.get("AB"), Some(&FieldData::U8(5)));
    assert_eq!(buf.remaining(), vec![77]);
    let mut buf = Cursor::new(vec![1, 2]);
    assert!(matches!(read_kv_pair(3, &mut buf, 4), Err(Error::TooSmallPacket)));
    assert_eq!(buf.remaining(), vec![1, 2]);
}

#[test]
fn read_field_and_payload() {
    let mut buf = Cursor::new(vec![b'q', b'Q', 3, 0, 1, 2, 9]);
    let field = read_field(&mut buf, 1).unwrap();
    assert_eq!(field, Field { name: String::from("QQ"), data: FieldData::U16(0x0201) });
    assert_eq!(buf.remaining(), vec![9]);
    let mut buf = Cursor::new(vec![1, 0, 0, 0, b'x', 5]);
    assert_eq!(read_payload(13, &mut buf, 0).unwrap(), FieldData::String(String::from("x")));
    assert_eq!(buf.remaining(), vec![5]);
    assert!(matches!(
        read_payload(14, &mut Cursor::new(vec![0, 0, 0, 0]), 0),
        Err(Error::NestingTooDeep)
    ));
    assert!(matches!(
        read_payload(200, &mut Cursor::new(vec![]), 0),
        Err(Error::InvalidFieldType(field, 200)) if field.is_empty()
    ));
    let map = read_fields(&mut Cursor::new(vec![]), 0).unwrap();
    assert!(map.is_empty());
}

#[test]
fn field_map_keeps_first_places() {
    let mut m = FieldMap::new();
    assert!(m.is_empty());
    m.insert(String::from("AA"), FieldData::U8(1));
    m.insert(String::from("BB"), FieldData::U8(2));
    m.insert(String::from("AA"), FieldData::U8(3));
    assert_eq!(m.len(), 2);
    assert_eq!(m.find("AA"), 0);
    assert_eq!(m.find("BB"), 1);
    assert_eq!(m.find("CC"), 2);
    assert_eq!(m.get("AA"), Some(&FieldData::U8(3)));
    assert_eq!(m.get("CC"), None);
    assert_eq!(m.remove("AA"), Some(FieldData::U8(3)));
    assert_eq!(m.remove("AA"), None);
    assert_eq!(m.len(), 1);
    assert_eq!(m.entry(0).name, "BB");
}

#[test]
fn scalars_are_written_little_endian() {
    let mut out = Vec::new();
    write_bool(true, &mut out);
    write_bool(false, &mut out);
    write_u8(200, &mut out);
    write_i8(-2, &mut out);
    write_u16(0x1234, &mut out);
    write_i16(-2, &mut out);
    assert_eq!(out, vec![1, 0, 200, 0xfe, 0x34, 0x12, 0xfe, 0xff]);
    let mut out = Vec::new();
    write_u32(0x0102_0304, &mut out);
    write_i32(i32::MIN, &mut out);
    assert_eq!(out, vec![4, 3, 2, 1, 0, 0, 0, 0x80]);
    let mut out = Vec::new();
    write_u64(0x0102_0304_0506_0708, &mut out);
    write_i64(-1, &mut out);
    assert_eq!(out, vec![8, 7, 6, 5, 4, 3, 2, 1, 255, 255, 255, 255, 255, 255, 255, 255]);
    let mut out = Vec::new();
    write_u128(u128::MAX - 1, &mut out);
    assert_eq!(out, (u128::MAX - 1).to_le_bytes().to_vec());
    let mut out = Vec::new();
    write_i128(i128::MIN + 5, &mut out);
    assert_eq!(out, (i128::MIN + 5).to_le_bytes().to_vec());
    let mut out = Vec::new();
    write_f32_bits(1.5f32.to_bits(), &mut out);
    write_f64_bits(f64::NEG_INFINITY.to_bits(), &mut out);
    let mut expect = 1.5f32.to_le_bytes().to_vec();
    expect.extend_from_slice(&f64::NEG_INFINITY.to_le_bytes());
    assert_eq!(out, expect);
}

#[test]
fn text_and_prefixes_are_written() {
    let mut out = vec![1];
    write_str("hé", &mut out);
    assert_eq!(out, vec![1, b'h', 0xc3, 0xa9]);
    let mut out = vec![1];
    write_bytes(&[5, 6], &mut out);
    assert_eq!(out, vec![1, 5, 6]);
    let mut out = vec![1];
    assert!(write_prefixed(&vec![9, 9, 9], &mut out));
    assert_eq!(out, vec![1, 3, 0, 0, 0, 9, 9, 9]);
    let mut buf = Cursor::new(b"caf\xc3\xa9".to_vec());
    assert_eq!(read_str(5, &mut buf).unwrap(), "café");
}

#[test]
fn arrays_are_written() {
    let mut out = Vec::new();
    assert!(write_arr_dyn(&vec![vec![1, 2], vec![1, 2, 3]], &mut out));
    assert_eq!(out, vec![13, 0, 0, 0, 2, 0, 0, 0, 1, 2, 3, 0, 0, 0, 1, 2, 3]);
    let mut out = Vec::new();
    assert!(write_arr_fixed(&vec![vec![12, 3], vec![6, 2]], 2, &mut out));
    assert_eq!(out, vec![4, 0, 0, 0, 12, 3, 6, 2]);
    let mut out = vec![5];
    assert!(!write_arr_fixed(&vec![vec![12, 3], vec![6]], 2, &mut out));
    assert_eq!(out, vec![5]);
}

#[test]
fn colours_are_packed() {
    let mut out = Vec::new();
    assert!(write_rgb(&vec![(1, 2, 3), (4, 5, 6)], &mut out));
    let n = u32::from_le_bytes([out[0], out[1], out[2], out[3]]) as usize;
    assert_eq!(n, out.len() - 4);
    assert_ne!(out[4..].to_vec(), vec![1, 2, 3, 4, 5, 6]);
    assert_eq!(out[4], 0x1f);
    assert_eq!(out[5], 0x8b);
    assert_eq!(gunzip(&out[4..]), vec![1, 2, 3, 4, 5, 6]);
    let mut buf = Cursor::new(out[4..].to_vec());
    assert_eq!(read_rgb(n as u32, &mut buf).unwrap(), vec![(1, 2, 3), (4, 5, 6)]);
    let mut again = Vec::new();
    assert!(write_rgb(&vec![(1, 2, 3), (4, 5, 6)], &mut again));
    assert_eq!(out, again);
}

#[test]
fn write_packed_each_outcome() {
    let mut out = vec![1];
    assert!(write_packed(Ok(vec![7]), &mut out));
    assert_eq!(out, vec![1, 1, 0, 0, 0, 7]);
    let failed = std::io::Error::new(std::io::ErrorKind::Other, "no");
    assert!(!write_packed(Err(failed), &mut out));
    assert_eq!(out, vec![1, 1, 0, 0, 0, 7]);
}

#[test]
fn fields_are_written() {
    let mut out = Vec::new();
    assert!(write_field("AB", &FieldData::U16(0x0102), &mut out));
    assert_eq!(out, vec![b'A', b'B', 3, 0, 2, 1]);
    let mut out = vec![9];
    assert!(!write_field("ABC", &FieldData::U8(1), &mut out));
    assert!(!write_field("é\u{e9}", &FieldData::U8(1), &mut out));
    assert_eq!(out, vec![9]);
    assert!(write_field("é", &FieldData::Bool(true), &mut out));
    assert_eq!(out, vec![9, 0xc3, 0xa9, 0, 0, 1]);
    let mut out = Vec::new();
    assert!(write_payload(&FieldData::String(String::from("hi")), &mut out));
    assert_eq!(out, vec![2, 0, 0, 0, b'h', b'i']);
    assert_eq!(tag(&FieldData::Bool(true)), 0);
    assert_eq!(tag(&FieldData::F64(0)), 12);
    assert_eq!(tag(&FieldData::String(String::new())), 13);
    assert_eq!(tag(&FieldData::KVPair(FieldMap::new())), 14);
    assert_eq!(tag(&FieldData::Array(vec![])), 15);
    assert_eq!(tag(&FieldData::Rgb(vec![])), 16);
    let mut m = FieldMap::new();
    m.insert(String::from("AA"), FieldData::U8(1));
    m.insert(String::from("BB"), FieldData::Bool(false));
    let mut out = Vec::new();
    assert!(write_fields(&m, &mut out));
    assert_eq!(out, vec![b'A', b'A', 1, 0, 1, b'B', b'B', 0, 0, 0]);
    let mut out = Vec::new();
    assert!(write_kv_pair(&m, &mut out));
    assert_eq!(out, vec![10, 0, 0, 0, b'A', b'A', 1, 0, 1, b'B', b'B', 0, 0, 0]);
    m.insert(String::from("TOO LONG"), FieldData::U8(1));
    let mut out = vec![4];
    assert!(!write_kv_pair(&m, &mut out));
    assert_eq!(out, vec![4]);
}

#[test]
fn packet_is_written_id_first() {
    let mut m = FieldMap::new();
    m.insert(String::from("AB"), FieldData::U8(7));
    let p = Packet::new(0x0102_0304, m);
    assert_eq!(p.to_bytes().unwrap(), vec![b'I', b'D', 5, 0, 4, 3, 2, 1, b'A', b'B', 1, 0, 7]);
    let empty = Packet::new(1, FieldMap::new());
    assert_eq!(empty.to_bytes().unwrap(), vec![0x49, 0x44, 0x05, 0x00, 0x01, 0x00, 0x00, 0x00]);
    let mut bad = FieldMap::new();
    bad.insert(String::from("A"), FieldData::U8(7));
    assert_eq!(Packet::new(1, bad).to_bytes(), None);
}

#[test]
fn packets_come_back_from_their_bytes() {
    let mut inner = FieldMap::new();
    inner.insert(String::from("IN"), FieldData::I64(-9));
    inner.insert(String::from("PX"), FieldData::Rgb(vec![(9, 8, 7)]));
    let mut deeper = FieldMap::new();
    deeper.insert(String::from("DD"), FieldData::KVPair(FieldMap::new()));
    inner.insert(String::from("KK"), FieldData::KVPair(deeper));
    let mut m = FieldMap::new();
    m.insert(String::from("B0"), FieldData::Bool(true));
    m.insert(String::from("U1"), FieldData::U8(255));
    m.insert(String::from("I1"), FieldData::I8(-128));
    m.insert(String::from("U2"), FieldData::U16(65535));
    m.insert(String::from("I2"), FieldData::I16(-32768));
    m.insert(String::from("U4"), FieldData::U32(u32::MAX));
    m.insert(String::from("I4"), FieldData::I32(-1));
    m.insert(String::from("U8"), FieldData::U64(u64::MAX));
    m.insert(String::from("I8"), FieldData::I64(i64::MIN));
    m.insert(String::from("UX"), FieldData::U128(u128::MAX));
    m.insert(String::from("IX"), FieldData::I128(i128::MIN));
    m.insert(String::from("F4"), FieldData::F32(f32::NAN.to_bits()));
    m.insert(String::from("F8"), FieldData::F64(f64::INFINITY.to_bits()));
    m.insert(String::from("ST"), FieldData::String(String::from("héllo")));
    m.insert(String::from("AR"), FieldData::Array(vec![vec![], vec![1, 2, 3]]));
    m.insert(String::from("PX"), FieldData::Rgb(vec![(1, 2, 3), (4, 5, 6)]));
    m.insert(String::from("KV"), FieldData::KVPair(inner));
    let p = Packet::new(77, m);
    let bytes = p.to_bytes().unwrap();
    let back = Packet::from_bytes(bytes).unwrap();
    assert_eq!(back.id(), 77);
    assert_eq!(back.fields(), p.fields());
    assert_eq!(back, p);
}

#[test]
fn users_and_processes() {
    let u = User::new("root");
    assert_eq!(u.name(), "root");
    let p = Process::new(42, "init", &u);
    assert_eq!(*p.pid(), 42);
    assert_eq!(p.name(), "init");
    assert_eq!(p.user().name(), "root");
    let q = p.clone();
    assert_eq!(*q.pid(), 42);
    assert_eq!(q.name(), "init");
    assert_eq!(q.user().clone().name(), "root");
    match ProcessStatus::Start(q) {
        ProcessStatus::Start(s) => assert_eq!(s.name(), "init"),
        ProcessStatus::Stop(_) => panic!("wrong variant"),
    }
}
