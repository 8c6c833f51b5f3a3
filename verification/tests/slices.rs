use bite::{BigEndian, Endianness, LittleEndian};
use bite::endian::{swap_slice_i16, swap_slice_u128, swap_slice_u16, swap_slice_u32, swap_slice_u64};

#[test]
fn swap_slice_u16_swaps_each_element() {
    let mut values = vec![0x1234u16, 0xABCD];
    swap_slice_u16(&mut values);
    assert_eq!(values, vec![0x3412, 0xCDAB]);
}

#[test]
fn swap_slice_u32_swaps_each_element() {
    let mut values = vec![0x0102_0304u32];
    swap_slice_u32(&mut values);
    assert_eq!(values, vec![0x0403_0201]);
}

#[test]
fn swap_slice_u64_swaps_each_element() {
    let mut values = vec![0x0102_0304_0506_0708u64];
    swap_slice_u64(&mut values);
    assert_eq!(values, vec![0x0807_0605_0403_0201]);
}

#[test]
fn swap_slice_u128_swaps_each_element() {
    let mut values = vec![0x0102_0304_0506_0708_090A_0B0C_0D0E_0F10u128];
    swap_slice_u128(&mut values);
    assert_eq!(values, vec![0x100F_0E0D_0C0B_0A09_0807_0605_0403_0201]);
}

#[test]
fn swap_slice_i16_swaps_the_bit_pattern() {
    // -2 is 0xFFFE; swapped, 0xFEFF is -257
    let mut values = vec![-2i16];
    swap_slice_i16(&mut values);
    assert_eq!(values, vec![-257]);
}

#[test]
fn swap_twice_restores_the_slice() {
    let original = vec![0x1234u16, 0xABCD, 0, 0xFFFF];
    let mut values = original.clone();
    swap_slice_u16(&mut values);
    swap_slice_u16(&mut values);
    assert_eq!(values, original);
}

#[test]
fn convert_slice_twice_non_native_restores() {
    // learn the machine's order behaviourally, then convert twice under
    // the non-native order: the array must return to its original pattern
    let mut probe = vec![1u16];
    BigEndian::convert_slice_u16(&mut probe);
    let native_is_big = probe[0] == 1;

    let original = vec![0x1234u16, 0xABCD];
    let mut values = original.clone();
    if native_is_big {
        LittleEndian::convert_slice_u16(&mut values);
        assert_eq!(values, vec![0x3412, 0xCDAB]);
        LittleEndian::convert_slice_u16(&mut values);
    } else {
        BigEndian::convert_slice_u16(&mut values);
        assert_eq!(values, vec![0x3412, 0xCDAB]);
        BigEndian::convert_slice_u16(&mut values);
    }
    assert_eq!(values, original);
}

#[test]
fn convert_slice_under_opposite_orders_swaps_exactly_once() {
    // one of the two orders is native (no-op), the other swaps, so the
    // composition is one swap on every machine
    let mut values = vec![0x1234u16];
    BigEndian::convert_slice_u16(&mut values);
    LittleEndian::convert_slice_u16(&mut values);
    assert_eq!(values, vec![0x3412]);
}

#[test]
fn read_slice_u16_window_decodes_chunks() {
    let data = vec![2u8, 5, 3, 0];
    let mut values = vec![0u16; 2];
    BigEndian::read_slice_u16(&data, &mut values);
    assert_eq!(values, vec![517, 768]);
    LittleEndian::read_slice_u16(&data, &mut values);
    assert_eq!(values, vec![1282, 3]);
}

#[test]
fn write_slice_u16_window_encodes_chunks() {
    let values = [517u16, 768];
    let mut window = vec![0u8; 4];
    BigEndian::write_slice_u16(&mut window, &values);
    assert_eq!(window, vec![2, 5, 3, 0]);
    LittleEndian::write_slice_u16(&mut window, &values);
    assert_eq!(window, vec![5, 2, 0, 3]);
}

#[test]
fn slice_window_round_trips_all_widths() {
    let values32 = [0xDEADBEEFu32, 7];
    let mut window = vec![0u8; 8];
    BigEndian::write_slice_u32(&mut window, &values32);
    let mut out32 = vec![0u32; 2];
    BigEndian::read_slice_u32(&window, &mut out32);
    assert_eq!(out32, vec![0xDEADBEEF, 7]);

    let values64 = [u64::MAX, 0, 12345678901234567890u64];
    let mut window = vec![0u8; 24];
    LittleEndian::write_slice_u64(&mut window, &values64);
    let mut out64 = vec![0u64; 3];
    LittleEndian::read_slice_u64(&window, &mut out64);
    assert_eq!(out64, vec![u64::MAX, 0, 12345678901234567890]);

    let values128 = [u128::MAX - 3];
    let mut window = vec![0u8; 16];
    BigEndian::write_slice_u128(&mut window, &values128);
    let mut out128 = vec![0u128; 1];
    BigEndian::read_slice_u128(&window, &mut out128);
    assert_eq!(out128, vec![u128::MAX - 3]);

    let values_i = [-1i64, i64::MIN, 42];
    let mut window = vec![0u8; 24];
    BigEndian::write_slice_i64(&mut window, &values_i);
    let mut out_i = vec![0i64; 3];
    BigEndian::read_slice_i64(&window, &mut out_i);
    assert_eq!(out_i, vec![-1, i64::MIN, 42]);
}

#[test]
fn signed_slice_window_layout() {
    let values = [-1i16, 2];
    let mut window = vec![0u8; 4];
    BigEndian::write_slice_i16(&mut window, &values);
    assert_eq!(window, vec![0xFF, 0xFF, 0x00, 0x02]);
    let mut out = vec![0i16; 2];
    BigEndian::read_slice_i16(&window, &mut out);
    assert_eq!(out, vec![-1, 2]);
}
