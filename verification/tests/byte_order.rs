use buf_view::byte_order::{
    bits_of_i128, bits_of_i16, bits_of_i32, bits_of_i64, i128_of_bits, i16_of_bits,
    i32_of_bits, i64_of_bits, i8_of_bits,
};
use buf_view::region::{copy_in, copy_out, load_be, load_le, store_be, store_le};

#[test]
fn load_be_reads_most_significant_first() {
    let buf = [9u8, 1, 2, 3, 4, 9];
    assert_eq!(load_be(&buf, 1, 4), 0x0102_0304);
    assert_eq!(load_be(&buf, 1, 2), 0x0102);
    assert_eq!(load_be(&buf, 4, 1), 4);
}

#[test]
fn load_le_reads_least_significant_first() {
    let buf = [9u8, 1, 2, 3, 4, 9];
    assert_eq!(load_le(&buf, 1, 4), 0x0403_0201);
    assert_eq!(load_le(&buf, 1, 2), 0x0201);
    assert_eq!(load_le(&buf, 4, 1), 4);
}

#[test]
fn load_of_no_bytes_is_zero() {
    let buf = [7u8, 7];
    assert_eq!(load_be(&buf, 1, 0), 0);
    assert_eq!(load_le(&buf, 2, 0), 0);
    let empty: [u8; 0] = [];
    assert_eq!(load_be(&empty, 0, 0), 0);
}

#[test]
fn load_sixteen_bytes() {
    let buf: [u8; 16] = [
        0x00, 0x11, 0x22, 0x33, 0x44, 0x55, 0x66, 0x77, 0x88, 0x99, 0xaa, 0xbb, 0xcc, 0xdd, 0xee,
        0xff,
    ];
    assert_eq!(load_be(&buf, 0, 16), 0x0011_2233_4455_6677_8899_aabb_ccdd_eeff);
    assert_eq!(load_le(&buf, 0, 16), 0xffee_ddcc_bbaa_9988_7766_5544_3322_1100);
    assert_eq!(load_be(&buf, 0, 16), u128::from_be_bytes(buf));
    assert_eq!(load_le(&buf, 0, 16), u128::from_le_bytes(buf));
}

#[test]
fn store_be_writes_only_its_run() {
    let mut buf = [0xeeu8; 6];
    store_be(&mut buf, 1, 4, 0x0102_0304);
    assert_eq!(buf, [0xee, 1, 2, 3, 4, 0xee]);
}

#[test]
fn store_le_writes_only_its_run() {
    let mut buf = [0xeeu8; 6];
    store_le(&mut buf, 1, 4, 0x0102_0304);
    assert_eq!(buf, [0xee, 4, 3, 2, 1, 0xee]);
}

#[test]
fn store_keeps_the_low_order_bytes_of_a_wider_value() {
    let mut buf = [0u8; 2];
    store_be(&mut buf, 0, 2, 0x0a0b_0c0d);
    assert_eq!(buf, [0x0c, 0x0d]);
    store_le(&mut buf, 0, 2, 0x0a0b_0c0d);
    assert_eq!(buf, [0x0d, 0x0c]);
}

#[test]
fn store_of_no_bytes_changes_nothing() {
    let mut buf = [5u8, 6];
    store_be(&mut buf, 1, 0, 0xffff);
    store_le(&mut buf, 2, 0, 0xffff);
    assert_eq!(buf, [5, 6]);
}

#[test]
fn store_agrees_with_the_standard_conversions() {
    let values: [u64; 5] = [0, 1, 0x0102_0304_0506_0708, u64::MAX, 0x8000_0000_0000_0000];
    for v in values {
        let mut be = [0u8; 8];
        let mut le = [0u8; 8];
        store_be(&mut be, 0, 8, v as u128);
        store_le(&mut le, 0, 8, v as u128);
        assert_eq!(be, v.to_be_bytes());
        assert_eq!(le, v.to_le_bytes());
        assert_eq!(load_be(&be, 0, 8), v as u128);
        assert_eq!(load_le(&le, 0, 8), v as u128);
    }
}

#[test]
fn copy_in_places_the_front_of_the_source() {
    let mut dst = [0u8; 6];
    copy_in(&mut dst, 2, &[1, 2, 3, 4], 3);
    assert_eq!(dst, [0, 0, 1, 2, 3, 0]);
    copy_in(&mut dst, 0, &[9, 9], 0);
    assert_eq!(dst, [0, 0, 1, 2, 3, 0]);
}

#[test]
fn copy_out_fills_the_front_of_the_destination() {
    let src = [1u8, 2, 3, 4, 5];
    let mut dst = [0xaau8; 4];
    copy_out(&src, 1, &mut dst, 3);
    assert_eq!(dst, [2, 3, 4, 0xaa]);
}

#[test]
fn signed_readings_of_bit_patterns() {
    assert_eq!(i8_of_bits(0x00), 0);
    assert_eq!(i8_of_bits(0x7f), 127);
    assert_eq!(i8_of_bits(0x80), -128);
    assert_eq!(i8_of_bits(0xff), -1);
    assert_eq!(i16_of_bits(0x7fff), i16::MAX);
    assert_eq!(i16_of_bits(0x8000), i16::MIN);
    assert_eq!(i16_of_bits(0xfffe), -2);
    assert_eq!(i32_of_bits(0x8000_0000), i32::MIN);
    assert_eq!(i32_of_bits(0xffff_ffff), -1);
    assert_eq!(i64_of_bits(0x8000_0000_0000_0000), i64::MIN);
    assert_eq!(i64_of_bits(0x7fff_ffff_ffff_ffff), i64::MAX);
    assert_eq!(i128_of_bits(u128::MAX), -1);
    assert_eq!(i128_of_bits(1u128 << 127), i128::MIN);
    assert_eq!(i128_of_bits(5), 5);
}

#[test]
fn bit_patterns_of_signed_values() {
    assert_eq!(bits_of_i16(-2), 0xfffe);
    assert_eq!(bits_of_i16(i16::MIN), 0x8000);
    assert_eq!(bits_of_i32(-1), 0xffff_ffff);
    assert_eq!(bits_of_i32(7), 7);
    assert_eq!(bits_of_i64(i64::MIN), 0x8000_0000_0000_0000);
    assert_eq!(bits_of_i128(-1), u128::MAX);
    assert_eq!(bits_of_i128(i128::MIN), 1u128 << 127);
}

#[test]
fn bit_patterns_round_trip() {
    for v in [i32::MIN, -65536, -1, 0, 1, 65535, i32::MAX] {
        assert_eq!(i32_of_bits(bits_of_i32(v)), v);
    }
    for v in [i128::MIN, -1, 0, 1, i128::MAX] {
        assert_eq!(i128_of_bits(bits_of_i128(v)), v);
    }
}
