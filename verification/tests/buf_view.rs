use buf_view::BufView;

#[test]
fn test_buf_view() {
    let buf = [8, 0, 16, 0, 0, 0, 32, 1, 2, 3, 4];
    let mut buf_view = BufView::wrap(&buf);

    assert_eq!(buf_view.read_u8(), 8);
    assert_eq!(buf_view.read_u16(), 16);
    assert_eq!(buf_view.read_u32(), 32);

    let src = [1, 2, 3, 4];
    let mut dest = [0; 4];
    buf_view.read_bytes(&mut dest);
    assert_eq!(src, dest);

    assert_eq!(buf_view.get_u8(0), 8);
    assert_eq!(buf_view.get_u16(1), 16);
    assert_eq!(buf_view.get_u32(3), 32);

    let buf = [0, 1, 2, 3, 4, 5, 6];
    let mut buf_view = BufView::wrap_with(&buf, 1, 5);
    assert_eq!(buf_view.read_u32(), 0x01020304);

    let buf = vec![0, 1, 2, 3, 4, 5, 6, 7];
    let mut buf_view = BufView::wrap(buf.as_slice());
    assert_eq!(buf_view.read_u8(), 0);
    assert_eq!(buf_view.read_u32(), 0x01020304);

    let s = "01234567";
    let mut buf_view = BufView::wrap(s.as_bytes());
    assert_eq!(buf_view.read_u8(), 0x30);
    assert_eq!(buf_view.read_u32(), 0x31323334);
}

#[test]
fn wrap_makes_the_whole_region_readable() {
    let buf = [1u8, 2, 3];
    let view = BufView::wrap(&buf);
    assert_eq!(view.reader_index(), 0);
    assert_eq!(view.writer_index(), 3);
    assert_eq!(view.capacity(), 3);
    assert_eq!(view.remaining(), 3);
}

#[test]
fn wrap_of_an_empty_region() {
    let buf: [u8; 0] = [];
    let mut view = BufView::wrap(&buf);
    assert_eq!(view.capacity(), 0);
    assert_eq!(view.remaining(), 0);
    assert_eq!(view.as_slice().len(), 0);
    let mut dest: [u8; 0] = [];
    assert_eq!(view.read_bytes(&mut dest), 0);
}

#[test]
fn wrap_with_takes_every_ordered_pair_of_cursors() {
    let buf = [0u8; 4];
    for w in 0..=4usize {
        for r in 0..=w {
            let view = BufView::wrap_with(&buf, r, w);
            assert_eq!(view.reader_index(), r);
            assert_eq!(view.writer_index(), w);
            assert_eq!(view.capacity(), 4);
            assert_eq!(view.remaining(), w - r);
        }
    }
}

#[test]
fn reads_advance_by_the_width_of_the_type() {
    let buf = [0u8; 64];
    let mut view = BufView::wrap(&buf);
    view.read_u8();
    assert_eq!(view.reader_index(), 1);
    view.read_i8();
    assert_eq!(view.reader_index(), 2);
    view.read_u16();
    assert_eq!(view.reader_index(), 4);
    view.read_i16_le();
    assert_eq!(view.reader_index(), 6);
    view.read_u32_le();
    assert_eq!(view.reader_index(), 10);
    view.read_i32();
    assert_eq!(view.reader_index(), 14);
    view.read_u64();
    assert_eq!(view.reader_index(), 22);
    view.read_i64_le();
    assert_eq!(view.reader_index(), 30);
    view.read_u128();
    assert_eq!(view.reader_index(), 46);
    view.read_i128_le();
    assert_eq!(view.reader_index(), 62);
    assert_eq!(view.writer_index(), 64);
    assert_eq!(view.remaining(), 2);
    assert_eq!(view.remaining(), view.writer_index() - view.reader_index());
}

#[test]
fn a_read_may_use_up_the_readable_bytes_exactly() {
    let buf = [0u8, 0xab, 0xcd, 0];
    let mut view = BufView::wrap_with(&buf, 1, 3);
    assert_eq!(view.read_u16(), 0xabcd);
    assert_eq!(view.reader_index(), 3);
    assert_eq!(view.remaining(), 0);
}

#[test]
fn big_endian_reads() {
    let buf: [u8; 16] = [
        0x80, 0x01, 0x02, 0x03, 0x04, 0x05, 0x06, 0x07, 0x08, 0x09, 0x0a, 0x0b, 0x0c, 0x0d, 0x0e,
        0x0f,
    ];
    assert_eq!(BufView::wrap(&buf).read_u16(), 0x8001);
    assert_eq!(BufView::wrap(&buf).read_i16(), 0x8001u16 as i16);
    assert_eq!(BufView::wrap(&buf).read_i16(), -32767);
    assert_eq!(BufView::wrap(&buf).read_u32(), 0x8001_0203);
    assert_eq!(BufView::wrap(&buf).read_i32(), -2147417597);
    assert_eq!(BufView::wrap(&buf).read_u64(), 0x8001_0203_0405_0607);
    assert_eq!(BufView::wrap(&buf).read_i64(), i64::from_be_bytes([0x80, 1, 2, 3, 4, 5, 6, 7]));
    assert_eq!(BufView::wrap(&buf).read_u128(), 0x8001_0203_0405_0607_0809_0a0b_0c0d_0e0f);
    assert_eq!(BufView::wrap(&buf).read_i128(), i128::from_be_bytes(buf));
    assert!(BufView::wrap(&buf).read_i128() < 0);
}

#[test]
fn little_endian_reads() {
    let buf: [u8; 16] = [
        0x00, 0x01, 0x02, 0x03, 0x04, 0x05, 0x06, 0x07, 0x08, 0x09, 0x0a, 0x0b, 0x0c, 0x0d, 0x0e,
        0xf0,
    ];
    assert_eq!(BufView::wrap(&buf).read_u16_le(), 0x0100);
    assert_eq!(BufView::wrap(&buf).read_i16_le(), 0x0100);
    assert_eq!(BufView::wrap(&buf).read_u32_le(), 0x0302_0100);
    assert_eq!(BufView::wrap(&buf).read_i32_le(), 0x0302_0100);
    assert_eq!(BufView::wrap(&buf).read_u64_le(), 0x0706_0504_0302_0100);
    assert_eq!(BufView::wrap(&buf).read_i64_le(), 0x0706_0504_0302_0100);
    assert_eq!(BufView::wrap(&buf).read_u128_le(), 0xf00e_0d0c_0b0a_0908_0706_0504_0302_0100);
    assert_eq!(BufView::wrap(&buf).read_i128_le(), i128::from_le_bytes(buf));
    assert!(BufView::wrap(&buf).read_i128_le() < 0);
}

#[test]
fn signed_single_bytes() {
    let buf = [0xffu8, 0x80, 0x7f, 0x00];
    let mut view = BufView::wrap(&buf);
    assert_eq!(view.read_i8(), -1);
    assert_eq!(view.read_i8(), -128);
    assert_eq!(view.read_i8(), 127);
    assert_eq!(view.read_i8(), 0);
    assert_eq!(view.get_i8(0), -1);
    assert_eq!(view.get_i8(1), -128);
    assert_eq!(view.get_u8(1), 0x80);
}

#[test]
fn gets_reach_the_whole_region_and_move_no_cursor() {
    let buf: [u8; 18] = [
        0xaa, 0x80, 0x01, 0x02, 0x03, 0x04, 0x05, 0x06, 0x07, 0x08, 0x09, 0x0a, 0x0b, 0x0c, 0x0d,
        0x0e, 0x0f, 0xbb,
    ];
    let mut view = BufView::wrap_with(&buf, 5, 5);
    assert_eq!(view.get_u8(17), 0xbb);
    assert_eq!(view.get_u16(1), 0x8001);
    assert_eq!(view.get_u16_le(1), 0x0180);
    assert_eq!(view.get_i16(1), -32767);
    assert_eq!(view.get_i16_le(1), 0x0180);
    assert_eq!(view.get_u32(1), 0x8001_0203);
    assert_eq!(view.get_u32_le(1), 0x0302_0180);
    assert_eq!(view.get_i32(1), -2147417597);
    assert_eq!(view.get_i32_le(1), 0x0302_0180);
    assert_eq!(view.get_u64(1), 0x8001_0203_0405_0607);
    assert_eq!(view.get_u64_le(1), 0x0706_0504_0302_0180);
    assert_eq!(view.get_i64(1), i64::from_be_bytes([0x80, 1, 2, 3, 4, 5, 6, 7]));
    assert_eq!(view.get_i64_le(1), 0x0706_0504_0302_0180);
    assert_eq!(view.get_u128(1), 0x8001_0203_0405_0607_0809_0a0b_0c0d_0e0f);
    assert_eq!(view.get_u128_le(1), 0x0f0e_0d0c_0b0a_0908_0706_0504_0302_0180);
    assert_eq!(view.get_i128(1), -(0x7ffe_fdfc_fbfa_f9f8_f7f6_f5f4_f3f2_f1f1));
    assert_eq!(view.get_i128_le(1), 0x0f0e_0d0c_0b0a_0908_0706_0504_0302_0180);
    assert_eq!(view.get_u16(16), 0x0fbb);
    assert_eq!(view.reader_index(), 5);
    assert_eq!(view.writer_index(), 5);
}

#[test]
fn read_bytes_fills_the_destination_and_advances() {
    let buf = [1u8, 2, 3, 4, 5];
    let mut view = BufView::wrap(&buf);
    let mut dest = [0u8; 3];
    assert_eq!(view.read_bytes(&mut dest), 3);
    assert_eq!(dest, [1, 2, 3]);
    assert_eq!(view.reader_index(), 3);
    let mut rest = [0u8; 2];
    assert_eq!(view.read_bytes(&mut rest), 2);
    assert_eq!(rest, [4, 5]);
    assert_eq!(view.remaining(), 0);
}

#[test]
fn get_bytes_copies_what_the_region_has() {
    let buf = [1u8, 2, 3, 4, 5];
    let mut view = BufView::wrap_with(&buf, 0, 0);
    let mut dest = [0xeeu8; 4];
    assert_eq!(view.get_bytes(3, &mut dest), 2);
    assert_eq!(dest, [4, 5, 0xee, 0xee]);
    let mut whole = [0u8; 2];
    assert_eq!(view.get_bytes(1, &mut whole), 2);
    assert_eq!(whole, [2, 3]);
    let mut exact = [0u8; 5];
    assert_eq!(view.get_bytes(0, &mut exact), 5);
    assert_eq!(exact, buf);
    let mut none: [u8; 0] = [];
    assert_eq!(view.get_bytes(4, &mut none), 0);
    assert_eq!(view.reader_index(), 0);
    assert_eq!(view.writer_index(), 0);
}

#[test]
fn a_get_past_the_region_is_outside_what_the_view_offers() {
    let buf = [0u8; 6];
    let view = BufView::wrap(&buf);
    let index = 3usize;
    assert!(index + 4 > view.capacity());
    assert!(index + 2 <= view.capacity());
}

#[test]
fn cursors_can_be_moved() {
    let buf = [10u8, 11, 12, 13, 14, 15];
    let mut view = BufView::wrap(&buf);
    view.set_reader_index(4);
    assert_eq!(view.reader_index(), 4);
    assert_eq!(view.read_u8(), 14);
    view.set_writer_index(5);
    assert_eq!(view.writer_index(), 5);
    assert_eq!(view.remaining(), 0);
    view.set_index(1, 3);
    assert_eq!(view.reader_index(), 1);
    assert_eq!(view.writer_index(), 3);
    assert_eq!(view.read_u16(), 0x0b0c);
    view.set_index(6, 6);
    assert_eq!(view.remaining(), 0);
    view.set_index(0, 6);
    assert_eq!(view.remaining(), 6);
    view.set_reader_index(6);
    assert_eq!(view.remaining(), 0);
    assert_eq!(view.capacity(), 6);
}

#[test]
fn clear_resets_both_cursors() {
    let buf = [1u8, 2, 3];
    let mut view = BufView::wrap_with(&buf, 1, 3);
    view.clear();
    assert_eq!(view.reader_index(), 0);
    assert_eq!(view.writer_index(), 0);
    assert_eq!(view.remaining(), 0);
    assert_eq!(view.capacity(), 3);
    assert_eq!(view.get_u8(2), 3);
}

#[test]
fn slices_of_a_view() {
    let buf = [1u8, 2, 3, 4, 5];
    let mut view = BufView::wrap_with(&buf, 1, 4);
    assert_eq!(view.as_slice(), &[2, 3, 4]);
    assert_eq!(view.as_raw_slice(), &[1, 2, 3, 4, 5]);
    view.read_u8();
    assert_eq!(view.as_slice(), &[3, 4]);
    view.set_index(2, 2);
    assert_eq!(view.as_slice().len(), 0);
    assert_eq!(view.as_raw_slice().len(), 5);
}
