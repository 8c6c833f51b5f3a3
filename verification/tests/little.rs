use bite::{BiteError, BiteReadExt, BiteWriteExt, Cursor};

#[test]
fn sequential_little_endian_reads() {
    let mut reader = Cursor::new(vec![5, 2, 0, 3]);
    assert_eq!(517, reader.read_u16().unwrap());
    assert_eq!(768, reader.read_u16().unwrap());
}

#[test]
fn little_endian_scalar_round_trip() {
    let mut stream = Cursor::new(Vec::new());
    stream.write_u8(0xAB).unwrap();
    stream.write_i8(-1).unwrap();
    stream.write_u16(517).unwrap();
    stream.write_i16(-2).unwrap();
    stream.write_u24(0x010203).unwrap();
    stream.write_i24(-3).unwrap();
    stream.write_u32(0xCAFEBABE).unwrap();
    stream.write_i32(i32::MIN + 1).unwrap();
    stream.write_u64(u64::MAX).unwrap();
    stream.write_i64(-4).unwrap();
    stream.write_u128(u128::MAX - 1).unwrap();
    stream.write_i128(i128::MIN).unwrap();
    stream.write_uint(0x0505, 2).unwrap();
    stream.write_int(-6, 5).unwrap();
    stream.write_uint128(1u128 << 90, 12).unwrap();
    stream.write_int128(-7, 9).unwrap();

    assert_eq!(stream.read_u8().unwrap(), 0xAB);
    assert_eq!(stream.read_i8().unwrap(), -1);
    assert_eq!(stream.read_u16().unwrap(), 517);
    assert_eq!(stream.read_i16().unwrap(), -2);
    assert_eq!(stream.read_u24().unwrap(), 0x010203);
    assert_eq!(stream.read_i24().unwrap(), -3);
    assert_eq!(stream.read_u32().unwrap(), 0xCAFEBABE);
    assert_eq!(stream.read_i32().unwrap(), i32::MIN + 1);
    assert_eq!(stream.read_u64().unwrap(), u64::MAX);
    assert_eq!(stream.read_i64().unwrap(), -4);
    assert_eq!(stream.read_u128().unwrap(), u128::MAX - 1);
    assert_eq!(stream.read_i128().unwrap(), i128::MIN);
    assert_eq!(stream.read_uint(2).unwrap(), 0x0505);
    assert_eq!(stream.read_int(5).unwrap(), -6);
    assert_eq!(stream.read_uint128(12).unwrap(), 1u128 << 90);
    assert_eq!(stream.read_int128(9).unwrap(), -7);
}

#[test]
fn little_endian_wire_layout() {
    let mut stream = Cursor::new(Vec::new());
    stream.write_u16(517).unwrap();
    stream.write_u16(768).unwrap();
    assert_eq!(stream.into_inner(), vec![5, 2, 0, 3]);
}

#[test]
fn little_endian_framing_round_trip() {
    let mut stream = Cursor::new(Vec::new());
    stream.write_framed(&[4, 5, 6]).unwrap();
    assert_eq!(stream.read_framed().unwrap(), vec![4, 5, 6]);
}

#[test]
fn little_endian_bounded_framing_rejects() {
    let mut reader = Cursor::new(vec![5, 0, 0, 0, 9, 9, 9, 9, 9]);
    assert_eq!(reader.read_framed_max(4), Err(BiteError::InvalidData));
    assert_eq!(reader.read_u8().unwrap(), 9);
}

#[test]
fn little_endian_slice_reads() {
    let mut reader = Cursor::new(vec![5, 2, 0, 3]);
    let mut out = vec![0u16; 2];
    reader.read_slice_u16(&mut out).unwrap();
    assert_eq!(out, vec![517, 768]);

    let mut reader = Cursor::new(vec![0xFE, 0xFF, 0xFF, 0xFF]);
    let mut out = vec![0i32; 1];
    reader.read_slice_i32(&mut out).unwrap();
    assert_eq!(out, vec![-2]);
}

#[test]
fn little_endian_short_read_fails() {
    let mut reader = Cursor::new(vec![1, 2, 3]);
    assert_eq!(reader.read_u32(), Err(BiteError::UnexpectedEnd));
}
