use bite::{pack_size, pack_size128, BigEndian, Endianness, LittleEndian};
use bite::{extend_sign, extend_sign128, unextend_sign, unextend_sign128};

#[test]
fn fixed_width_big_endian_example() {
    let data = vec![0x02u8, 0x05];
    assert_eq!(BigEndian::read_u16(&data), 517);
}

#[test]
fn fixed_width_little_endian_example() {
    let data = vec![0x02u8, 0x05];
    assert_eq!(LittleEndian::read_u16(&data), 1282);
}

#[test]
fn sign_extension_three_bytes() {
    let data = vec![0xFFu8, 0xFF, 0xFF];
    assert_eq!(BigEndian::read_int(&data, 3), -1);
    assert_eq!(BigEndian::read_uint(&data, 3), 16777215);
    assert_eq!(LittleEndian::read_int(&data, 3), -1);
    assert_eq!(LittleEndian::read_uint(&data, 3), 16777215);
}

#[test]
fn pack_size_minimal_widths() {
    assert_eq!(pack_size(0), 1);
    assert_eq!(pack_size(255), 1);
    assert_eq!(pack_size(256), 2);
    assert_eq!(pack_size((1u64 << 32) - 1), 4);
    assert_eq!(pack_size(1u64 << 32), 5);
    assert_eq!(pack_size(u64::MAX), 8);
}

#[test]
fn pack_size128_minimal_widths() {
    assert_eq!(pack_size128(0), 1);
    assert_eq!(pack_size128(255), 1);
    assert_eq!(pack_size128(256), 2);
    assert_eq!(pack_size128((1u128 << 64) - 1), 8);
    assert_eq!(pack_size128(1u128 << 64), 9);
    assert_eq!(pack_size128(u128::MAX), 16);
}

#[test]
fn read_u16_round_trip_both_orders() {
    for v in [0u16, 1, 255, 256, 0x1234, 0xFFFF] {
        let mut window = vec![0u8; 2];
        BigEndian::write_u16(&mut window, v);
        assert_eq!(BigEndian::read_u16(&window), v);
        LittleEndian::write_u16(&mut window, v);
        assert_eq!(LittleEndian::read_u16(&window), v);
    }
}

#[test]
fn write_u16_byte_layout() {
    let mut window = vec![0u8; 2];
    BigEndian::write_u16(&mut window, 0x0205);
    assert_eq!(window, vec![0x02, 0x05]);
    LittleEndian::write_u16(&mut window, 0x0205);
    assert_eq!(window, vec![0x05, 0x02]);
}

#[test]
fn write_u32_byte_layout() {
    let mut window = vec![0u8; 4];
    BigEndian::write_u32(&mut window, 0x0102_0304);
    assert_eq!(window, vec![1, 2, 3, 4]);
    LittleEndian::write_u32(&mut window, 0x0102_0304);
    assert_eq!(window, vec![4, 3, 2, 1]);
}

#[test]
fn read_u32_round_trip_both_orders() {
    for v in [0u32, 1, 0xFF00FF, 0xDEADBEEF, u32::MAX] {
        let mut window = vec![0u8; 4];
        BigEndian::write_u32(&mut window, v);
        assert_eq!(BigEndian::read_u32(&window), v);
        LittleEndian::write_u32(&mut window, v);
        assert_eq!(LittleEndian::read_u32(&window), v);
    }
}

#[test]
fn read_u64_round_trip_both_orders() {
    for v in [0u64, 1, 0x0123_4567_89AB_CDEF, u64::MAX] {
        let mut window = vec![0u8; 8];
        BigEndian::write_u64(&mut window, v);
        assert_eq!(BigEndian::read_u64(&window), v);
        LittleEndian::write_u64(&mut window, v);
        assert_eq!(LittleEndian::read_u64(&window), v);
    }
}

#[test]
fn read_u128_round_trip_both_orders() {
    for v in [0u128, 1, 0x0123_4567_89AB_CDEF_0011_2233_4455_6677, u128::MAX] {
        let mut window = vec![0u8; 16];
        BigEndian::write_u128(&mut window, v);
        assert_eq!(BigEndian::read_u128(&window), v);
        LittleEndian::write_u128(&mut window, v);
        assert_eq!(LittleEndian::read_u128(&window), v);
    }
}

#[test]
fn read_u8_is_order_independent() {
    let data = vec![0xA7u8, 0x01];
    assert_eq!(BigEndian::read_u8(&data), 0xA7);
    assert_eq!(LittleEndian::read_u8(&data), 0xA7);
}

#[test]
fn write_u8_writes_one_byte() {
    let mut window = vec![0u8; 2];
    BigEndian::write_u8(&mut window, 0x5E);
    assert_eq!(window, vec![0x5E, 0]);
}

#[test]
fn u24_round_trip_and_layout() {
    let mut window = vec![0u8; 3];
    BigEndian::write_u24(&mut window, 0x010203);
    assert_eq!(window, vec![1, 2, 3]);
    assert_eq!(BigEndian::read_u24(&window), 0x010203);
    LittleEndian::write_u24(&mut window, 0x010203);
    assert_eq!(window, vec![3, 2, 1]);
    assert_eq!(LittleEndian::read_u24(&window), 0x010203);
}

#[test]
fn i24_sign_extends() {
    let data = vec![0xFFu8, 0xFF, 0xFE];
    assert_eq!(BigEndian::read_i24(&data), -2);
    let data = vec![0xFEu8, 0xFF, 0xFF];
    assert_eq!(LittleEndian::read_i24(&data), -2);
    let mut window = vec![0u8; 3];
    BigEndian::write_i24(&mut window, -2);
    assert_eq!(window, vec![0xFF, 0xFF, 0xFE]);
}

#[test]
fn signed_round_trips() {
    for v in [0i16, 1, -1, i16::MIN, i16::MAX] {
        let mut window = vec![0u8; 2];
        BigEndian::write_i16(&mut window, v);
        assert_eq!(BigEndian::read_i16(&window), v);
        LittleEndian::write_i16(&mut window, v);
        assert_eq!(LittleEndian::read_i16(&window), v);
    }
    for v in [0i32, 7, -7, i32::MIN, i32::MAX] {
        let mut window = vec![0u8; 4];
        BigEndian::write_i32(&mut window, v);
        assert_eq!(BigEndian::read_i32(&window), v);
    }
    for v in [0i64, 9, -9, i64::MIN, i64::MAX] {
        let mut window = vec![0u8; 8];
        LittleEndian::write_i64(&mut window, v);
        assert_eq!(LittleEndian::read_i64(&window), v);
    }
    for v in [0i128, 11, -11, i128::MIN, i128::MAX] {
        let mut window = vec![0u8; 16];
        BigEndian::write_i128(&mut window, v);
        assert_eq!(BigEndian::read_i128(&window), v);
    }
}

#[test]
fn variable_width_round_trip_every_width() {
    for bytes in 1usize..=8 {
        let max = if bytes == 8 { u64::MAX } else { (1u64 << (8 * bytes)) - 1 };
        for v in [0u64, 1, max / 2, max] {
            let mut window = vec![0u8; 8];
            BigEndian::write_uint(&mut window, v, bytes);
            assert_eq!(BigEndian::read_uint(&window, bytes), v);
            LittleEndian::write_uint(&mut window, v, bytes);
            assert_eq!(LittleEndian::read_uint(&window, bytes), v);
        }
    }
}

#[test]
fn variable_width_round_trip_every_width_128() {
    for bytes in 1usize..=16 {
        let max = if bytes == 16 { u128::MAX } else { (1u128 << (8 * bytes)) - 1 };
        for v in [0u128, 1, max / 2, max] {
            let mut window = vec![0u8; 16];
            BigEndian::write_uint128(&mut window, v, bytes);
            assert_eq!(BigEndian::read_uint128(&window, bytes), v);
            LittleEndian::write_uint128(&mut window, v, bytes);
            assert_eq!(LittleEndian::read_uint128(&window, bytes), v);
        }
    }
}

#[test]
fn signed_variable_width_round_trip() {
    for bytes in 1usize..=8 {
        let half = 1i64 << (8 * bytes - 1);
        for v in [0i64, 1, -1, -half, half - 1] {
            let mut window = vec![0u8; 8];
            BigEndian::write_int(&mut window, v, bytes);
            assert_eq!(BigEndian::read_int(&window, bytes), v);
            LittleEndian::write_int(&mut window, v, bytes);
            assert_eq!(LittleEndian::read_int(&window, bytes), v);
        }
    }
}

#[test]
fn extend_sign_examples() {
    assert_eq!(extend_sign(0xFF, 1), -1);
    assert_eq!(extend_sign(0x7F, 1), 127);
    assert_eq!(extend_sign(0x80, 1), -128);
    assert_eq!(extend_sign(0xFFFF_FFFF_FFFF_FFFF, 8), -1);
    assert_eq!(extend_sign128(0xFF, 1), -1);
    assert_eq!(extend_sign128(u128::MAX, 16), -1);
}

#[test]
fn unextend_sign_examples() {
    assert_eq!(unextend_sign(-1, 1), 0xFF);
    assert_eq!(unextend_sign(-1, 2), 0xFFFF);
    assert_eq!(unextend_sign(-2, 3), 0xFFFFFE);
    assert_eq!(unextend_sign(5, 2), 5);
    assert_eq!(unextend_sign(-1, 8), u64::MAX);
    assert_eq!(unextend_sign128(-1, 16), u128::MAX);
    assert_eq!(unextend_sign128(-1, 3), 0xFFFFFF);
}

#[test]
fn sign_round_trip_through_extend() {
    for bytes in 1usize..=8 {
        let half = 1i64 << (8 * bytes - 1);
        for v in [0i64, 1, -1, -half, half - 1] {
            assert_eq!(extend_sign(unextend_sign(v, bytes), bytes), v);
        }
    }
    for bytes in 1usize..=16 {
        let half = 1i128 << (8 * bytes - 1);
        for v in [0i128, 1, -1, -half, half - 1] {
            assert_eq!(extend_sign128(unextend_sign128(v, bytes), bytes), v);
        }
    }
}

#[test]
fn write_uint_leaves_rest_of_window() {
    let mut window = vec![0xAAu8; 8];
    BigEndian::write_uint(&mut window, 0x0102, 2);
    assert_eq!(window, vec![0x01, 0x02, 0xAA, 0xAA, 0xAA, 0xAA, 0xAA, 0xAA]);
    let mut window = vec![0xAAu8; 8];
    LittleEndian::write_uint(&mut window, 0x0102, 2);
    assert_eq!(window, vec![0x02, 0x01, 0xAA, 0xAA, 0xAA, 0xAA, 0xAA, 0xAA]);
}
