use datafusion_orc::column::ColumnEncodingKind;
use datafusion_orc::error::OrcError;
use datafusion_orc::list::ListArrayDecoder;
use datafusion_orc::rle::{decode_unsigned_rle_v1, read_varint};

#[test]
fn varint_two_bytes() {
    assert_eq!(read_varint(&[0x96, 0x01], 0).unwrap(), (150, 2));
    assert_eq!(read_varint(&[0xff, 0x05, 0x7f], 2).unwrap(), (127, 3));
}

#[test]
fn varint_largest_value() {
    let mut b = vec![0xff; 9];
    b.push(0x01);
    assert_eq!(read_varint(&b, 0).unwrap(), (u64::MAX, 10));
}

#[test]
fn varint_too_large() {
    let mut b = vec![0xff; 9];
    b.push(0x02);
    assert!(matches!(read_varint(&b, 0), Err(OrcError::VarintTooLarge)));
}

#[test]
fn varint_truncated() {
    assert!(matches!(read_varint(&[0x80, 0x80], 0), Err(OrcError::OutOfSpec { .. })));
    assert!(matches!(read_varint(&[0x01], 1), Err(OrcError::OutOfSpec { .. })));
}

#[test]
fn rle_v1_constant_run() {
    let v = decode_unsigned_rle_v1(&[0x61, 0x00, 0x07]).unwrap();
    assert_eq!(v, vec![7u64; 100]);
}

#[test]
fn rle_v1_descending_run() {
    let v = decode_unsigned_rle_v1(&[0x61, 0xff, 0x64]).unwrap();
    let expected: Vec<u64> = (1..=100).rev().collect();
    assert_eq!(v, expected);
}

#[test]
fn rle_v1_literals() {
    let v = decode_unsigned_rle_v1(&[0xfb, 0x02, 0x03, 0x06, 0x07, 0x0b]).unwrap();
    assert_eq!(v, vec![2, 3, 6, 7, 11]);
}

#[test]
fn rle_v1_run_then_literals() {
    let v = decode_unsigned_rle_v1(&[0x00, 0x02, 0x01, 0xfe, 0x96, 0x01, 0x00]).unwrap();
    assert_eq!(v, vec![1, 3, 5, 150, 0]);
}

#[test]
fn rle_v1_run_below_zero_is_out_of_spec() {
    assert!(matches!(
        decode_unsigned_rle_v1(&[0x00, 0xff, 0x01]),
        Err(OrcError::OutOfSpec { .. })
    ));
}

#[test]
fn rle_v1_truncated_literals_fail() {
    assert!(decode_unsigned_rle_v1(&[0xfd, 0x01, 0x02]).is_err());
    assert!(decode_unsigned_rle_v1(&[0x05]).is_err());
}

#[test]
fn list_from_streams_decodes_batches() {
    // Rows: present, null, present, present; lengths 2, 0, 3.
    let present = [0xff, 0xb0];
    let lengths = [0xfd, 0x02, 0x00, 0x03];
    let mut d =
        ListArrayDecoder::from_streams(Some(&present[..]), &lengths, 4, ColumnEncodingKind::Direct)
            .unwrap();
    let b = d.next_batch(4, None).unwrap();
    assert_eq!(b.nulls, Some(vec![true, false, true, true]));
    assert_eq!(b.offsets, vec![0, 2, 2, 2, 5]);
    assert_eq!(b.child_rows, 5);
}

#[test]
fn list_from_streams_rejects_bad_lengths() {
    assert!(ListArrayDecoder::from_streams(None, &[0x05], 1, ColumnEncodingKind::Direct).is_err());
    assert!(
        ListArrayDecoder::from_streams(Some(&[0x07][..]), &[], 1, ColumnEncodingKind::Direct)
            .is_err()
    );
}

#[test]
fn list_from_streams_with_v2_lengths() {
    // lengths 2, 3, 4 as a fixed-step delta run
    let mut d =
        ListArrayDecoder::from_streams(None, &[0xc0, 0x02, 0x02, 0x02], 3, ColumnEncodingKind::DirectV2)
            .unwrap();
    let b = d.next_batch(3, None).unwrap();
    assert_eq!(b.offsets, vec![0, 2, 5, 9]);
    assert_eq!(b.child_rows, 9);
}

use datafusion_orc::rle::{decode_signed_rle_v1, zigzag_decode};

#[test]
fn zigzag_values() {
    assert_eq!(zigzag_decode(0), 0);
    assert_eq!(zigzag_decode(1), -1);
    assert_eq!(zigzag_decode(2), 1);
    assert_eq!(zigzag_decode(u64::MAX - 1), i64::MAX);
    assert_eq!(zigzag_decode(u64::MAX), i64::MIN);
}

#[test]
fn signed_rle_v1_run_and_literals() {
    let v = decode_signed_rle_v1(&[0x00, 0xff, 0x02, 0xfe, 0x01, 0x02]).unwrap();
    assert_eq!(v, vec![1, 0, -1, -1, 1]);
}

#[test]
fn signed_rle_v1_constant_run() {
    let v = decode_signed_rle_v1(&[0x61, 0x00, 0x0e]).unwrap();
    assert_eq!(v, vec![7i64; 100]);
}

#[test]
fn signed_rle_v1_run_overflow_is_out_of_spec() {
    let mut b = vec![0x00, 0x01, 0xfe];
    b.extend(vec![0xff; 8]);
    b.push(0x01);
    assert!(matches!(decode_signed_rle_v1(&b), Err(OrcError::OutOfSpec { .. })));
}

use datafusion_orc::rle2::{bit_width, decode_unsigned_rle_v2, read_packed};

#[test]
fn rle_v2_short_repeat() {
    let v = decode_unsigned_rle_v2(&[0x0a, 0x27, 0x10]).unwrap();
    assert_eq!(v, vec![10000; 5]);
}

#[test]
fn rle_v2_direct() {
    let v = decode_unsigned_rle_v2(&[0x5e, 0x03, 0x5c, 0xa1, 0xab, 0x1e, 0xde, 0xad, 0xbe, 0xef])
        .unwrap();
    assert_eq!(v, vec![23713, 43806, 57005, 48879]);
}

#[test]
fn rle_v2_delta_packed() {
    let v = decode_unsigned_rle_v2(&[0xc6, 0x09, 0x02, 0x02, 0x22, 0x42, 0x42, 0x46]).unwrap();
    assert_eq!(v, vec![2, 3, 5, 7, 11, 13, 17, 19, 23, 29]);
}

#[test]
fn rle_v2_delta_fixed_step() {
    let v = decode_unsigned_rle_v2(&[0xc0, 0x04, 0x00, 0x02]).unwrap();
    assert_eq!(v, vec![0, 1, 2, 3, 4]);
}

#[test]
fn rle_v2_runs_in_sequence() {
    let v = decode_unsigned_rle_v2(&[0x0a, 0x27, 0x10, 0xc0, 0x01, 0x07, 0x01]).unwrap();
    assert_eq!(v, vec![10000, 10000, 10000, 10000, 10000, 7, 6]);
}

#[test]
fn rle_v2_delta_below_zero_is_too_large() {
    assert!(matches!(
        decode_unsigned_rle_v2(&[0xc0, 0x02, 0x01, 0x03]),
        Err(OrcError::VarintTooLarge)
    ));
}

#[test]
fn rle_v2_truncated_runs_fail() {
    assert!(matches!(decode_unsigned_rle_v2(&[0x0a, 0x27]), Err(OrcError::OutOfSpec { .. })));
    assert!(matches!(decode_unsigned_rle_v2(&[0x5e, 0x03, 0x5c]), Err(OrcError::OutOfSpec { .. })));
    assert!(matches!(decode_unsigned_rle_v2(&[0x5e]), Err(OrcError::OutOfSpec { .. })));
}

#[test]
fn rle_v2_patched_base_is_unsupported() {
    assert!(matches!(
        decode_unsigned_rle_v2(&[0x8e, 0x09, 0x2b, 0x21, 0x07, 0xd0]),
        Err(OrcError::UnsupportedTypeVariant { .. })
    ));
}

#[test]
fn bit_width_table() {
    assert_eq!(bit_width(0), 1);
    assert_eq!(bit_width(23), 24);
    assert_eq!(bit_width(24), 26);
    assert_eq!(bit_width(27), 32);
    assert_eq!(bit_width(31), 64);
}

#[test]
fn packed_values_msb_first() {
    let b = [0b1011_0010, 0b1111_0000];
    assert_eq!(read_packed(&b, 0, 3), 0b101);
    assert_eq!(read_packed(&b, 3, 7), 0b1_0010_11);
    assert_eq!(read_packed(&b, 0, 16), 0b1011_0010_1111_0000);
    assert_eq!(read_packed(&b, 5, 0), 0);
}
