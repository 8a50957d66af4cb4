use birdseye_common::net::packets::cursor::Cursor;
use birdseye_common::net::packets::deserialize::{
    colours_from, group_triplets, read_arr_dyn, read_arr_fixed, read_bool, read_f32_bits,
    read_f64_bits, read_i128, read_i16, read_i32, read_i64, read_i8, read_n, read_name, read_rgb,
    read_str, read_u128, read_u16, read_u32, read_u64, read_u8, text_from, to_upper,
};
use birdseye_common::net::packets::error::{name, DecompressCause, Error};
use birdseye_common::net::packets::le::{le_decode, le_encode};
use std::io::Write;

fn gz(bytes: &[u8]) -> Vec<u8> {
    let mut e = flate2::write::GzEncoder::new(Vec::new(), flate2::Compression::default());
    e.write_all(bytes).unwrap();
    e.finish().unwrap()
}

#[test]
fn desereialize_test_read_n() {
    let mut buf = Cursor::new(vec![0, 1, 2, 3, 4, 5]);
    let bytes = read_n(3, &mut buf).unwrap();

    assert_eq!(vec![0, 1, 2], bytes);
    assert_eq!(vec![3, 4, 5], buf.remaining());
}

#[test]
fn desereialize_test_read_str() {
    let mut buf = Cursor::new(String::from("Hello world").as_bytes().to_vec());
    let str = read_str(5, &mut buf).unwrap();
    assert_eq!(String::from("Hello"), str);
    assert_eq!(String::from(" world").as_bytes().to_vec(), buf.remaining());
}

#[test]
fn test_read_bool() {
    let mut buf = Cursor::new(vec![1, 0]);
    let val_true = read_bool(&mut buf).unwrap();

    assert_eq!(vec![0], buf.remaining());
    assert_eq!(true, val_true);

    let val_false = read_bool(&mut buf).unwrap();
    assert_eq!(Vec::<u8>::new(), buf.remaining());
    assert_eq!(false, val_false);
}

#[test]
fn test_read_dyn_arr() {
    let mut buf = Cursor::new(vec![2, 0, 0, 0, 1, 2, 3, 0, 0, 0, 1, 2, 3, 6]);
    let val = read_arr_dyn(13, &mut buf).unwrap();

    assert_eq!(vec![6], buf.remaining());
    assert_eq!(vec![vec![1, 2], vec![1, 2, 3]], val);
}

#[test]
fn test_read_fixed_arr() {
    let mut buf = Cursor::new(vec![12, 3, 6, 2]);
    let val = read_arr_fixed(4, 2, &mut buf).unwrap();

    assert_eq!(Vec::<u8>::new(), buf.remaining());
    assert_eq!(vec![vec![12, 3], vec![6, 2]], val);
}

#[test]
fn util_test_read_n() {
    let mut buf = Cursor::new(vec![0, 1, 2, 3, 4, 5]);
    let bytes = read_n(3, &mut buf).unwrap();

    assert_eq!(vec![0, 1, 2], bytes);
    assert_eq!(vec![3, 4, 5], buf.remaining());
}

#[test]
fn util_test_read_str() {
    let mut buf = Cursor::new(String::from("Hello world").as_bytes().to_vec());
    let str = read_str(5, &mut buf).unwrap();
    assert_eq!(String::from("Hello"), str);
    assert_eq!(String::from(" world").as_bytes().to_vec(), buf.remaining());
}

#[test]
fn cursor_take_and_len() {
    let mut c = Cursor::new(vec![9, 8, 7]);
    assert_eq!(c.len(), 3);
    assert!(!c.is_empty());
    assert_eq!(c.take(0).unwrap(), Vec::<u8>::new());
    assert_eq!(c.take(2).unwrap(), vec![9, 8]);
    assert_eq!(c.len(), 1);
    assert!(matches!(c.take(2), Err(Error::TooSmallPacket)));
    assert_eq!(c.remaining(), vec![7]);
    assert_eq!(c.take(1).unwrap(), vec![7]);
    assert!(c.is_empty());
}

#[test]
fn read_n_too_small_reads_nothing() {
    let mut buf = Cursor::new(vec![1, 2]);
    assert!(matches!(read_n(3, &mut buf), Err(Error::TooSmallPacket)));
    assert_eq!(buf.remaining(), vec![1, 2]);
}

#[test]
fn le_decode_exact() {
    assert_eq!(le_decode(&vec![]), 0);
    assert_eq!(le_decode(&vec![0x34, 0x12]), 0x1234);
    assert_eq!(le_decode(&vec![0xff; 16]), u128::MAX);
}

#[test]
fn le_encode_exact() {
    let mut out = vec![7u8];
    le_encode(0x0102_0304, 4, &mut out);
    assert_eq!(out, vec![7, 4, 3, 2, 1]);
    let mut out = Vec::new();
    le_encode(0x1ff, 1, &mut out);
    assert_eq!(out, vec![0xff]);
}

#[test]
fn read_unsigned_exact() {
    assert_eq!(read_u8(&mut Cursor::new(vec![200])).unwrap(), 200);
    assert_eq!(read_u16(&mut Cursor::new(vec![0x34, 0x12])).unwrap(), 0x1234);
    assert_eq!(read_u32(&mut Cursor::new(vec![1, 0, 0, 0])).unwrap(), 1);
    assert_eq!(read_u32(&mut Cursor::new(vec![0x78, 0x56, 0x34, 0x12])).unwrap(), 0x1234_5678);
    assert_eq!(
        read_u64(&mut Cursor::new(vec![8, 7, 6, 5, 4, 3, 2, 1])).unwrap(),
        0x0102_0304_0506_0708
    );
    let mut bytes = vec![0u8; 16];
    bytes[15] = 0x80;
    bytes[0] = 1;
    assert_eq!(read_u128(&mut Cursor::new(bytes)).unwrap(), (1u128 << 127) + 1);
}

#[test]
fn read_signed_exact() {
    assert_eq!(read_i8(&mut Cursor::new(vec![0xff])).unwrap(), -1);
    assert_eq!(read_i8(&mut Cursor::new(vec![0x80])).unwrap(), i8::MIN);
    assert_eq!(read_i8(&mut Cursor::new(vec![0x7f])).unwrap(), i8::MAX);
    assert_eq!(read_i16(&mut Cursor::new(vec![0xfe, 0xff])).unwrap(), -2);
    assert_eq!(read_i32(&mut Cursor::new(vec![0, 0, 0, 0x80])).unwrap(), i32::MIN);
    assert_eq!(read_i64(&mut Cursor::new(vec![0xff; 8])).unwrap(), -1);
    assert_eq!(read_i128(&mut Cursor::new(vec![0xff; 16])).unwrap(), -1);
    let mut bytes = vec![0u8; 16];
    bytes[15] = 0x80;
    assert_eq!(read_i128(&mut Cursor::new(bytes)).unwrap(), i128::MIN);
}

#[test]
fn read_i128_takes_sixteen_bytes() {
    let mut buf = Cursor::new(vec![5u8; 17]);
    let v = read_i128(&mut buf).unwrap();
    assert_eq!(v, i128::from_le_bytes([5u8; 16]));
    assert_eq!(buf.len(), 1);
    assert!(matches!(read_i128(&mut Cursor::new(vec![0u8; 15])), Err(Error::TooSmallPacket)));
}

#[test]
fn read_float_bits_exact() {
    let one = 1.0f32.to_le_bytes().to_vec();
    assert_eq!(f32::from_bits(read_f32_bits(&mut Cursor::new(one)).unwrap()), 1.0f32);
    let nan = f64::NAN.to_le_bytes().to_vec();
    assert_eq!(read_f64_bits(&mut Cursor::new(nan)).unwrap(), f64::NAN.to_bits());
    let v = (-2.5f64).to_le_bytes().to_vec();
    assert_eq!(f64::from_bits(read_f64_bits(&mut Cursor::new(v)).unwrap()), -2.5f64);
}

#[test]
fn scalars_too_small() {
    assert!(matches!(read_bool(&mut Cursor::new(vec![])), Err(Error::TooSmallPacket)));
    assert!(matches!(read_u8(&mut Cursor::new(vec![])), Err(Error::TooSmallPacket)));
    assert!(matches!(read_i8(&mut Cursor::new(vec![])), Err(Error::TooSmallPacket)));
    assert!(matches!(read_u16(&mut Cursor::new(vec![1])), Err(Error::TooSmallPacket)));
    assert!(matches!(read_i16(&mut Cursor::new(vec![1])), Err(Error::TooSmallPacket)));
    assert!(matches!(read_u32(&mut Cursor::new(vec![1, 2, 3])), Err(Error::TooSmallPacket)));
    assert!(matches!(read_i32(&mut Cursor::new(vec![1, 2, 3])), Err(Error::TooSmallPacket)));
    assert!(matches!(read_u64(&mut Cursor::new(vec![0; 7])), Err(Error::TooSmallPacket)));
    assert!(matches!(read_i64(&mut Cursor::new(vec![0; 7])), Err(Error::TooSmallPacket)));
    assert!(matches!(read_u128(&mut Cursor::new(vec![0; 15])), Err(Error::TooSmallPacket)));
    assert!(matches!(read_f32_bits(&mut Cursor::new(vec![0; 3])), Err(Error::TooSmallPacket)));
    assert!(matches!(read_f64_bits(&mut Cursor::new(vec![0; 7])), Err(Error::TooSmallPacket)));
}

#[test]
fn bool_is_any_non_zero_byte() {
    for v in 0..=255u8 {
        assert_eq!(read_bool(&mut Cursor::new(vec![v])).unwrap(), v != 0);
    }
}

#[test]
fn read_str_rejects_bad_utf8() {
    let mut buf = Cursor::new(vec![0xff, 0xfe, b'a']);
    let res = read_str(2, &mut buf);
    match res {
        Err(Error::InvalidString(field, _)) => assert_eq!(field, ""),
        other => panic!("{:?}", other),
    }
    assert_eq!(buf.remaining(), vec![b'a']);
    assert!(matches!(read_str(2, &mut buf), Err(Error::TooSmallPacket)));
}

#[test]
fn read_name_makes_capitals() {
    assert_eq!(to_upper(b'a'), b'A');
    assert_eq!(to_upper(b'z'), b'Z');
    assert_eq!(to_upper(b'A'), b'A');
    assert_eq!(to_upper(b'`'), b'`');
    assert_eq!(to_upper(b'{'), b'{');
    assert_eq!(to_upper(0xe9), 0xe9);
    assert_eq!(read_name(&mut Cursor::new(b"id".to_vec())).unwrap(), "ID");
    assert_eq!(read_name(&mut Cursor::new(b"x1".to_vec())).unwrap(), "X1");
    assert!(matches!(read_name(&mut Cursor::new(vec![b'a'])), Err(Error::TooSmallPacket)));
    assert!(matches!(
        read_name(&mut Cursor::new(vec![0xff, b'a'])),
        Err(Error::InvalidString(_, _))
    ));
}

#[test]
fn group_triplets_exact() {
    assert_eq!(group_triplets(&vec![1, 2, 3, 4, 5, 6]).unwrap(), vec![(1, 2, 3), (4, 5, 6)]);
    assert_eq!(group_triplets(&vec![]).unwrap(), vec![]);
    match group_triplets(&vec![1, 2, 3, 4]) {
        Err(Error::UnableToDecompress(field, DecompressCause::Ragged(n))) => {
            assert_eq!(field, "");
            assert_eq!(n, 4);
        }
        other => panic!("{:?}", other),
    }
}

#[test]
fn colours_from_each_outcome() {
    assert_eq!(colours_from(Ok(vec![7, 8, 9])).unwrap(), vec![(7, 8, 9)]);
    let failed = std::io::Error::new(std::io::ErrorKind::InvalidInput, "bad");
    assert!(matches!(
        colours_from(Err(failed)),
        Err(Error::UnableToDecompress(_, DecompressCause::Gzip(_)))
    ));
    assert!(matches!(
        colours_from(Ok(vec![7, 8])),
        Err(Error::UnableToDecompress(_, DecompressCause::Ragged(2)))
    ));
}

#[test]
fn read_rgb_unpacks() {
    let mut blob = gz(&[1, 2, 3, 4, 5, 6]);
    let n = blob.len() as u32;
    assert_ne!(blob, vec![1, 2, 3, 4, 5, 6]);
    blob.push(99);
    let mut buf = Cursor::new(blob);
    assert_eq!(read_rgb(n, &mut buf).unwrap(), vec![(1, 2, 3), (4, 5, 6)]);
    assert_eq!(buf.remaining(), vec![99]);
}

#[test]
fn read_rgb_failures() {
    let mut buf = Cursor::new(vec![1, 2, 3, 4, 5, 6]);
    assert!(matches!(
        read_rgb(6, &mut buf),
        Err(Error::UnableToDecompress(_, DecompressCause::Gzip(_)))
    ));
    assert!(buf.is_empty());
    let blob = gz(&[1, 2, 3, 4]);
    let n = blob.len() as u32;
    assert!(matches!(
        read_rgb(n, &mut Cursor::new(blob)),
        Err(Error::UnableToDecompress(_, DecompressCause::Ragged(4)))
    ));
    assert!(matches!(read_rgb(5, &mut Cursor::new(vec![1])), Err(Error::TooSmallPacket)));
}

#[test]
fn read_arr_dyn_malformed() {
    assert!(matches!(
        read_arr_dyn(3, &mut Cursor::new(vec![1, 0, 0])),
        Err(Error::TooSmallPacket)
    ));
    assert!(matches!(
        read_arr_dyn(5, &mut Cursor::new(vec![2, 0, 0, 0, 1])),
        Err(Error::TooSmallPacket)
    ));
    assert!(matches!(read_arr_dyn(5, &mut Cursor::new(vec![0; 4])), Err(Error::TooSmallPacket)));
    assert_eq!(read_arr_dyn(0, &mut Cursor::new(vec![1])).unwrap(), Vec::<Vec<u8>>::new());
    assert_eq!(
        read_arr_dyn(4, &mut Cursor::new(vec![0, 0, 0, 0])).unwrap(),
        vec![Vec::<u8>::new()]
    );
}

#[test]
fn read_arr_fixed_needs_a_multiple() {
    let mut buf = Cursor::new(vec![1, 2, 3, 4, 5]);
    assert!(matches!(read_arr_fixed(5, 2, &mut buf), Err(Error::TooSmallPacket)));
    assert!(buf.is_empty());
    assert!(matches!(
        read_arr_fixed(2, 0, &mut Cursor::new(vec![1, 2])),
        Err(Error::TooSmallPacket)
    ));
    assert_eq!(read_arr_fixed(0, 0, &mut Cursor::new(vec![1])).unwrap(), Vec::<Vec<u8>>::new());
    assert_eq!(
        read_arr_fixed(3, 3, &mut Cursor::new(vec![1, 2, 3])).unwrap(),
        vec![vec![1, 2, 3]]
    );
    assert!(matches!(read_arr_fixed(4, 2, &mut Cursor::new(vec![1])), Err(Error::TooSmallPacket)));
}

#[test]
fn name_attaches_the_field() {
    let ok: Result<u8, Error> = name("AB", Ok(3));
    assert_eq!(ok.unwrap(), 3);
    let e: Result<u8, Error> = name("AB", Err(Error::TooSmallPacket));
    assert!(matches!(e, Err(Error::TooSmallPacket)));
    let e: Result<u8, Error> = name("AB", Err(Error::InvalidFieldType(String::new(), 40)));
    match e {
        Err(Error::InvalidFieldType(field, tag)) => {
            assert_eq!(field, "AB");
            assert_eq!(tag, 40);
        }
        other => panic!("{:?}", other),
    }
    let e: Result<u8, Error> = name("AB", Err(Error::InvalidFieldType(String::from("CD"), 40)));
    assert!(matches!(e, Err(Error::InvalidFieldType(field, 40)) if field == "CD"));
    let inner = read_str(1, &mut Cursor::new(vec![0xff]));
    match name("ST", inner) {
        Err(Error::InvalidString(field, _)) => assert_eq!(field, "ST"),
        other => panic!("{:?}", other),
    }
    let e: Result<u8, Error> =
        name("RG", Err(Error::UnableToDecompress(String::new(), DecompressCause::Ragged(1))));
    assert!(matches!(e, Err(Error::UnableToDecompress(field, _)) if field == "RG"));
}

#[test]
fn text_from_each_outcome() {
    assert_eq!(text_from(Ok(String::from("abc"))).unwrap(), "abc");
    let bad = String::from_utf8(vec![b'a', 0xff, b'b']);
    let expected = bad.clone().unwrap_err();
    match text_from(bad) {
        Err(Error::InvalidString(field, report)) => {
            assert_eq!(field, "");
            assert_eq!(report, expected);
            assert_eq!(report.utf8_error().valid_up_to(), 1);
        }
        other => panic!("{:?}", other),
    }
}

#[test]
fn read_str_carries_the_report() {
    let expected = String::from_utf8(vec![b'o', b'k', 0x80]).unwrap_err();
    match read_str(3, &mut Cursor::new(vec![b'o', b'k', 0x80, 1])) {
        Err(Error::InvalidString(_, report)) => assert_eq!(report, expected),
        other => panic!("{:?}", other),
    }
}
