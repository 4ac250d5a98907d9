use bin_data::data::{plain_data_decode_with, plain_data_encode_with, PlainData};
use bin_data::stream::{Be, DecodeError, Le, Reader, Writer};
use bin_data::Endian;

#[test]
fn typed_numbers_to_and_from_bytes() {
    assert_eq!(0x1234_u16.to_bytes(Endian::Little), vec![0x34, 0x12]);
    assert_eq!(0x1234_u16.to_bytes(Endian::Big), vec![0x12, 0x34]);
    assert_eq!(i32::from_bytes(&[0xFF, 0xFF, 0xFF, 0xFE], Endian::Big), -2);
    assert_eq!(u64::from_bytes(&[1, 0, 0, 0, 0, 0, 0, 0], Endian::Little), 1);
    assert_eq!(i128::from_bytes(&(-7_i128).to_le_bytes(), Endian::Little), -7);
}

#[test]
fn typed_decode_and_encode() {
    let mut r = Reader::new(vec![0xEF, 0xBE, 0xAD, 0xDE, 0x01]);
    let v: u32 = plain_data_decode_with(&mut r, Endian::Little).unwrap();
    assert_eq!(v, 0xDEAD_BEEF);
    assert_eq!(r.remaining(), 1);
    let short: Result<u16, DecodeError> = plain_data_decode_with(&mut r, Endian::Little);
    assert_eq!(short.unwrap_err(), DecodeError::IncompleteData { context: "u16", needed: 2, available: 1 });
    let mut w = Writer::new();
    plain_data_encode_with(&-1_i16, &mut w, Endian::Big);
    plain_data_encode_with(&7_u8, &mut w, Endian::Big);
    assert_eq!(w.into_bytes(), vec![0xFF, 0xFF, 7]);
}

#[test]
fn fixed_endian_wrappers() {
    let mut w = Writer::new();
    Le(42_u16).encode(&mut w);
    Be(42_u16).encode(&mut w);
    assert_eq!(w.as_slice(), &[42, 0, 0, 42]);
    let mut r = Reader::new(w.into_bytes());
    assert_eq!(Le::<u16>::decode(&mut r).unwrap(), Le(42));
    assert_eq!(Be::<u16>::decode(&mut r).unwrap(), Be(42));
}

#[test]
fn typed_numbers_as_magic() {
    let mut w = Writer::new();
    w.magic(Le(42_u16));
    w.magic(Be(42_u16));
    assert_eq!(w.into_bytes(), vec![42, 0, 0, 42]);
    let mut r = Reader::new(vec![0x78, 0x56, 0x34, 0x12]);
    r.magic(Le(0x1234_5678_u32)).unwrap();
    assert_eq!(r.remaining(), 0);
}
