use bite::{BigEndian, BiteError, BiteReadExpandedExt, BiteWriteExpandedExt, Cursor, LittleEndian};

#[test]
fn sequential_big_endian_reads() {
    let mut reader = Cursor::new(vec![2, 5, 3, 0]);
    assert_eq!(517, reader.read_u16::<BigEndian>().unwrap());
    assert_eq!(768, reader.read_u16::<BigEndian>().unwrap());
}

#[test]
fn sequential_reads_exhaust_the_stream() {
    let mut reader = Cursor::new(vec![2, 5, 3, 0]);
    assert!(reader.read_u16::<BigEndian>().is_ok());
    assert!(reader.read_u16::<BigEndian>().is_ok());
    assert_eq!(reader.read_u8(), Err(BiteError::UnexpectedEnd));
}

#[test]
fn short_stream_reports_unexpected_end() {
    let mut reader = Cursor::new(vec![1]);
    assert_eq!(reader.read_u16::<BigEndian>(), Err(BiteError::UnexpectedEnd));
}

#[test]
fn stream_round_trip_scalars() {
    let mut stream = Cursor::new(Vec::new());
    stream.write_u8::<BigEndian>(0x7F).unwrap();
    stream.write_i8::<BigEndian>(-3).unwrap();
    stream.write_u16::<BigEndian>(517).unwrap();
    stream.write_i16::<LittleEndian>(-517).unwrap();
    stream.write_u24::<BigEndian>(0x010203).unwrap();
    stream.write_i24::<LittleEndian>(-2).unwrap();
    stream.write_u32::<LittleEndian>(0xDEADBEEF).unwrap();
    stream.write_i32::<BigEndian>(i32::MIN).unwrap();
    stream.write_u64::<BigEndian>(u64::MAX - 1).unwrap();
    stream.write_i64::<LittleEndian>(i64::MIN).unwrap();
    stream.write_u128::<LittleEndian>(u128::MAX - 7).unwrap();
    stream.write_i128::<BigEndian>(i128::MIN + 5).unwrap();

    assert_eq!(stream.read_u8().unwrap(), 0x7F);
    assert_eq!(stream.read_i8().unwrap(), -3);
    assert_eq!(stream.read_u16::<BigEndian>().unwrap(), 517);
    assert_eq!(stream.read_i16::<LittleEndian>().unwrap(), -517);
    assert_eq!(stream.read_u24::<BigEndian>().unwrap(), 0x010203);
    assert_eq!(stream.read_i24::<LittleEndian>().unwrap(), -2);
    assert_eq!(stream.read_u32::<LittleEndian>().unwrap(), 0xDEADBEEF);
    assert_eq!(stream.read_i32::<BigEndian>().unwrap(), i32::MIN);
    assert_eq!(stream.read_u64::<BigEndian>().unwrap(), u64::MAX - 1);
    assert_eq!(stream.read_i64::<LittleEndian>().unwrap(), i64::MIN);
    assert_eq!(stream.read_u128::<LittleEndian>().unwrap(), u128::MAX - 7);
    assert_eq!(stream.read_i128::<BigEndian>().unwrap(), i128::MIN + 5);
}

#[test]
fn stream_round_trip_variable_width() {
    let mut stream = Cursor::new(Vec::new());
    stream.write_uint::<BigEndian>(0x0102_03, 3).unwrap();
    stream.write_int::<BigEndian>(-5, 3).unwrap();
    stream.write_uint128::<LittleEndian>(1u128 << 80, 11).unwrap();
    stream.write_int128::<LittleEndian>(-(1i128 << 79), 10).unwrap();

    assert_eq!(stream.read_uint::<BigEndian>(3).unwrap(), 0x0102_03);
    assert_eq!(stream.read_int::<BigEndian>(3).unwrap(), -5);
    assert_eq!(stream.read_uint128::<LittleEndian>(11).unwrap(), 1u128 << 80);
    assert_eq!(stream.read_int128::<LittleEndian>(10).unwrap(), -(1i128 << 79));
}

#[test]
fn stream_u24_consumes_three_bytes() {
    let mut reader = Cursor::new(vec![1, 2, 3, 9]);
    assert_eq!(reader.read_u24::<BigEndian>().unwrap(), 0x010203);
    assert_eq!(reader.read_u8().unwrap(), 9);
}

#[test]
fn stream_write_is_byte_exact() {
    let mut stream = Cursor::new(Vec::new());
    stream.write_u16::<BigEndian>(517).unwrap();
    stream.write_u16::<BigEndian>(768).unwrap();
    assert_eq!(stream.into_inner(), vec![2, 5, 3, 0]);
}

#[test]
fn stream_slice_round_trip_u16() {
    let mut stream = Cursor::new(Vec::new());
    let values = [517u16, 768, 0xFFFF];
    stream.write_u16::<BigEndian>(values[0]).unwrap();
    stream.write_u16::<BigEndian>(values[1]).unwrap();
    stream.write_u16::<BigEndian>(values[2]).unwrap();
    let mut out = vec![0u16; 3];
    stream.read_slice_u16::<BigEndian>(&mut out).unwrap();
    assert_eq!(out, vec![517, 768, 0xFFFF]);
}

#[test]
fn stream_slice_round_trip_signed_and_wide() {
    let mut stream = Cursor::new(Vec::new());
    stream.write_i32::<LittleEndian>(-7).unwrap();
    stream.write_i32::<LittleEndian>(123456).unwrap();
    let mut out = vec![0i32; 2];
    stream.read_slice_i32::<LittleEndian>(&mut out).unwrap();
    assert_eq!(out, vec![-7, 123456]);

    let mut stream = Cursor::new(Vec::new());
    stream.write_u128::<BigEndian>(1u128 << 100).unwrap();
    let mut out = vec![0u128; 1];
    stream.read_slice_u128::<BigEndian>(&mut out).unwrap();
    assert_eq!(out, vec![1u128 << 100]);
}

#[test]
fn stream_slice_short_input_fails() {
    let mut reader = Cursor::new(vec![1, 2, 3]);
    let mut out = vec![0u16; 2];
    assert_eq!(
        reader.read_slice_u16::<BigEndian>(&mut out),
        Err(BiteError::UnexpectedEnd)
    );
}
