use bite::{BigEndian, BiteError, BiteReadExpandedExt, BiteWriteExpandedExt, Cursor, LittleEndian};

#[test]
fn framing_round_trip_empty_payload() {
    let mut stream = Cursor::new(Vec::new());
    stream.write_framed::<BigEndian>(&[]).unwrap();
    assert_eq!(stream.read_framed::<BigEndian>().unwrap(), Vec::<u8>::new());
}

#[test]
fn framing_round_trip_one_byte() {
    let mut stream = Cursor::new(Vec::new());
    stream.write_framed::<BigEndian>(&[0xAB]).unwrap();
    assert_eq!(stream.read_framed::<BigEndian>().unwrap(), vec![0xAB]);
}

#[test]
fn framing_round_trip_large_payload() {
    let payload: Vec<u8> = (0..65536u32).map(|i| (i % 251) as u8).collect();
    let mut stream = Cursor::new(Vec::new());
    stream.write_framed::<BigEndian>(&payload).unwrap();
    assert_eq!(stream.read_framed::<BigEndian>().unwrap(), payload);
}

#[test]
fn framing_round_trip_little_endian() {
    let mut stream = Cursor::new(Vec::new());
    stream.write_framed::<LittleEndian>(&[1, 2, 3]).unwrap();
    assert_eq!(stream.read_framed::<LittleEndian>().unwrap(), vec![1, 2, 3]);
}

#[test]
fn frame_wire_format() {
    let mut stream = Cursor::new(Vec::new());
    stream.write_framed::<BigEndian>(&[9, 8]).unwrap();
    assert_eq!(stream.into_inner(), vec![0, 0, 0, 2, 9, 8]);

    let mut stream = Cursor::new(Vec::new());
    stream.write_framed::<LittleEndian>(&[9, 8]).unwrap();
    assert_eq!(stream.into_inner(), vec![2, 0, 0, 0, 9, 8]);
}

#[test]
fn bounded_framing_accepts_frames_at_the_ceiling() {
    let mut stream = Cursor::new(Vec::new());
    stream.write_framed::<BigEndian>(&[7, 7, 7]).unwrap();
    assert_eq!(stream.read_framed_max::<BigEndian>(3).unwrap(), vec![7, 7, 7]);
}

#[test]
fn bounded_framing_rejects_oversized_length() {
    let mut stream = Cursor::new(Vec::new());
    stream.write_framed::<BigEndian>(&[7, 7, 7, 7, 7]).unwrap();
    assert_eq!(
        stream.read_framed_max::<BigEndian>(4),
        Err(BiteError::InvalidData)
    );
}

#[test]
fn bounded_framing_rejects_without_consuming_payload() {
    let mut reader = Cursor::new(vec![0, 0, 0, 5, 9, 9, 9, 9, 9]);
    assert_eq!(
        reader.read_framed_max::<BigEndian>(4),
        Err(BiteError::InvalidData)
    );
    // only the 4-byte prefix was consumed: the payload is still there
    assert_eq!(reader.read_u8().unwrap(), 9);
}

#[test]
fn framing_truncated_payload_fails() {
    let mut reader = Cursor::new(vec![0, 0, 0, 4, 1, 2]);
    assert_eq!(
        reader.read_framed::<BigEndian>(),
        Err(BiteError::UnexpectedEnd)
    );
}

#[test]
fn framing_truncated_prefix_fails() {
    let mut reader = Cursor::new(vec![0, 0]);
    assert_eq!(
        reader.read_framed::<BigEndian>(),
        Err(BiteError::UnexpectedEnd)
    );
}

#[test]
fn consecutive_frames_stay_delimited() {
    let mut stream = Cursor::new(Vec::new());
    stream.write_framed::<BigEndian>(&[1]).unwrap();
    stream.write_framed::<BigEndian>(&[2, 3]).unwrap();
    stream.write_framed::<BigEndian>(&[]).unwrap();
    assert_eq!(stream.read_framed::<BigEndian>().unwrap(), vec![1]);
    assert_eq!(stream.read_framed::<BigEndian>().unwrap(), vec![2, 3]);
    assert_eq!(stream.read_framed::<BigEndian>().unwrap(), Vec::<u8>::new());
}
