use parity_codec::{Compact, Decode, Encode};
use plasm_parent::codec::{get_compact, get_le32, get_le64, put_compact, put_le32, put_le64};

fn compact_bytes(n: u32) -> Vec<u8> {
    let mut out = Vec::new();
    put_compact(&mut out, n);
    out
}

#[test]
fn le32_is_little_endian() {
    let mut out = vec![0xaa];
    put_le32(&mut out, 0x0403_0201);
    assert_eq!(out, vec![0xaa, 0x01, 0x02, 0x03, 0x04]);
    assert_eq!(get_le32(&out, 1), Some((0x0403_0201, 5)));
    assert_eq!(get_le32(&out, 2), None);
}

#[test]
fn le64_is_little_endian() {
    let mut out = Vec::new();
    put_le64(&mut out, 0x0807_0605_0403_0201);
    assert_eq!(out, vec![1, 2, 3, 4, 5, 6, 7, 8]);
    assert_eq!(get_le64(&out, 0), Some((0x0807_0605_0403_0201, 8)));
    assert_eq!(get_le64(&out, 1), None);
    let mut max = Vec::new();
    put_le64(&mut max, u64::MAX);
    assert_eq!(max, vec![0xff; 8]);
    assert_eq!(get_le64(&max, 0), Some((u64::MAX, 8)));
}

#[test]
fn fixed_width_integers_agree_with_the_scale_codec() {
    for x in [0u32, 1, 255, 256, 65_535, 65_536, 0x1234_5678, u32::MAX] {
        let mut out = Vec::new();
        put_le32(&mut out, x);
        assert_eq!(out, x.encode());
    }
    for x in [0u64, 1, 0xffff_ffff, 0x1_0000_0000, 0x0123_4567_89ab_cdef, u64::MAX] {
        let mut out = Vec::new();
        put_le64(&mut out, x);
        assert_eq!(out, x.encode());
    }
}

#[test]
fn compact_has_four_forms() {
    assert_eq!(compact_bytes(0), vec![0x00]);
    assert_eq!(compact_bytes(1), vec![0x04]);
    assert_eq!(compact_bytes(63), vec![0xfc]);
    assert_eq!(compact_bytes(64), vec![0x01, 0x01]);
    assert_eq!(compact_bytes(16_383), vec![0xfd, 0xff]);
    assert_eq!(compact_bytes(16_384), vec![0x02, 0x00, 0x01, 0x00]);
    assert_eq!(compact_bytes(0x3fff_ffff), vec![0xfe, 0xff, 0xff, 0xff]);
    assert_eq!(compact_bytes(0x4000_0000), vec![0x03, 0x00, 0x00, 0x00, 0x40]);
    assert_eq!(compact_bytes(u32::MAX), vec![0x03, 0xff, 0xff, 0xff, 0xff]);
}

#[test]
fn compact_agrees_with_the_scale_codec() {
    let samples = [
        0u32, 1, 2, 63, 64, 65, 255, 256, 16_383, 16_384, 16_385, 65_535, 65_536, 1_000_000,
        0x3fff_ffff, 0x4000_0000, 0x4000_0001, u32::MAX - 1, u32::MAX,
    ];
    for n in samples {
        let ours = compact_bytes(n);
        assert_eq!(ours, Compact(n).encode());
        assert_eq!(get_compact(&ours, 0), Some((n, ours.len())));
        let theirs = <Compact<u32>>::decode(&mut &ours[..]).map(|c| c.0);
        assert_eq!(theirs, Some(n));
    }
}

#[test]
fn compact_is_read_at_a_position() {
    let bytes = vec![0xff, 0x01, 0x01, 0x2a];
    assert_eq!(get_compact(&bytes, 1), Some((64, 3)));
    assert_eq!(get_compact(&bytes, 4), None);
}

#[test]
fn compact_refuses_what_is_cut_short() {
    assert_eq!(get_compact(&[], 0), None);
    assert_eq!(get_compact(&[0x01], 0), None);
    assert_eq!(get_compact(&[0x02, 0x00, 0x01], 0), None);
    assert_eq!(get_compact(&[0x03, 0x00, 0x00, 0x00], 0), None);
}

#[test]
fn compact_refuses_a_longer_form_than_needed() {
    // 1 in the two-byte form, 1 in the four-byte form, 1 in the five-byte form
    assert_eq!(get_compact(&[0x05, 0x00], 0), None);
    assert_eq!(get_compact(&[0x06, 0x00, 0x00, 0x00], 0), None);
    assert_eq!(get_compact(&[0x03, 0x01, 0x00, 0x00, 0x00], 0), None);
    // 63 in the two-byte form, 16383 in the four-byte form
    assert_eq!(get_compact(&[0xfd, 0x00], 0), None);
    assert_eq!(get_compact(&[0xfe, 0xff, 0x00, 0x00], 0), None);
    // 0x3fff_ffff in the five-byte form
    assert_eq!(get_compact(&[0x03, 0xff, 0xff, 0xff, 0x3f], 0), None);
}

#[test]
fn compact_refuses_a_prefix_for_more_than_four_bytes() {
    assert_eq!(get_compact(&[0x07, 0, 0, 0, 0, 1], 0), None);
    assert_eq!(get_compact(&[0xff, 0, 0, 0, 0, 0, 0, 0, 0], 0), None);
}
