use datafusion_orc::error::OrcError;
use datafusion_orc::list::{offsets_from_lengths, populate_lengths_with_nulls, ListArrayDecoder};
use datafusion_orc::present::{count_present, derive_present_vec};
use datafusion_orc::rle::{decode_byte_rle, decode_present_stream, unpack_bytes};
use datafusion_orc::stream::{batch_len, BoolStream, U64Stream};

fn list_decoder(present: Option<Vec<bool>>, lengths: Vec<u64>) -> ListArrayDecoder {
    ListArrayDecoder::new(present.map(BoolStream::new), U64Stream::new(lengths))
}

#[test]
fn byte_rle_run() {
    let v = decode_byte_rle(&[0x61, 0x07]).unwrap();
    assert_eq!(v.len(), 100);
    assert!(v.iter().all(|&b| b == 7));
}

#[test]
fn byte_rle_literals_and_runs() {
    let v = decode_byte_rle(&[0xfe, 0x44, 0x45, 0x00, 0x09]).unwrap();
    assert_eq!(v, vec![0x44, 0x45, 0x09, 0x09, 0x09]);
}

#[test]
fn byte_rle_truncated_is_out_of_spec() {
    assert!(matches!(decode_byte_rle(&[0x05]), Err(OrcError::OutOfSpec { .. })));
    assert!(matches!(decode_byte_rle(&[0xfd, 0x01]), Err(OrcError::OutOfSpec { .. })));
}

#[test]
fn unpack_is_msb_first() {
    assert_eq!(
        unpack_bytes(&vec![0b1010_0001]),
        vec![true, false, true, false, false, false, false, true]
    );
}

#[test]
fn present_stream_stops_at_row_count() {
    let s = decode_present_stream(&[0xfe, 0xff, 0x80], 10).unwrap();
    let mut expected = vec![true; 9];
    expected.push(false);
    assert_eq!(s.values, expected);
    assert_eq!(s.remaining(), 10);
}

#[test]
fn present_stream_shorter_than_rows_keeps_all_bits() {
    let s = decode_present_stream(&[0xff, 0x0f], 20).unwrap();
    assert_eq!(s.values, vec![false, false, false, false, true, true, true, true]);
}

#[test]
fn derive_present_none_and_none() {
    let mut own: Option<BoolStream> = None;
    assert!(derive_present_vec(&mut own, None, 4).unwrap().is_none());
}

#[test]
fn derive_present_parent_only_is_cloned() {
    let mut own: Option<BoolStream> = None;
    let parent = [true, false, true];
    assert_eq!(derive_present_vec(&mut own, Some(&parent[..]), 3).unwrap(), Some(vec![true, false, true]));
}

#[test]
fn derive_present_own_only_takes_n() {
    let mut own = Some(BoolStream::new(vec![false, true, true, false, true]));
    assert_eq!(derive_present_vec(&mut own, None, 3).unwrap(), Some(vec![false, true, true]));
    assert_eq!(own.as_ref().unwrap().remaining(), 2);
}

#[test]
fn derive_present_reads_only_under_present_parent() {
    let mut own = Some(BoolStream::new(vec![false, true, true]));
    let parent = [true, false, true, false, true];
    let r = derive_present_vec(&mut own, Some(&parent[..]), 5).unwrap();
    assert_eq!(r, Some(vec![false, false, true, false, true]));
    assert_eq!(own.as_ref().unwrap().remaining(), 0);
}

#[test]
fn derive_present_short_stream_fails() {
    let mut own = Some(BoolStream::new(vec![true]));
    assert!(matches!(derive_present_vec(&mut own, None, 2), Err(OrcError::OutOfSpec { .. })));
}

#[test]
fn all_null_parent_reads_nothing() {
    let mut own = Some(BoolStream::new(vec![true, true]));
    let parent = [false, false, false];
    let r = derive_present_vec(&mut own, Some(&parent[..]), 3).unwrap();
    assert_eq!(r, Some(vec![false, false, false]));
    assert_eq!(own.as_ref().unwrap().remaining(), 2);
}

#[test]
fn count_present_counts_true() {
    assert_eq!(count_present(&[true, false, true, true]), 3);
    assert_eq!(count_present(&[]), 0);
}

#[test]
fn lengths_with_nulls_inserts_zeros() {
    let r = populate_lengths_with_nulls(vec![4, 1], 4, &Some(vec![false, true, false, true]));
    assert_eq!(r, vec![0, 4, 0, 1]);
    let r = populate_lengths_with_nulls(vec![2, 3], 2, &None);
    assert_eq!(r, vec![2, 3]);
}

#[test]
fn offsets_are_prefix_sums() {
    assert_eq!(offsets_from_lengths(&vec![2, 0, 3]), Some(vec![0, 2, 2, 5]));
    assert_eq!(offsets_from_lengths(&vec![]), Some(vec![0]));
}

#[test]
fn offsets_overflow_is_none() {
    assert_eq!(offsets_from_lengths(&vec![2147483647]), Some(vec![0, 2147483647]));
    assert_eq!(offsets_from_lengths(&vec![2147483647, 1]), None);
}

#[test]
fn list_batch_without_nulls() {
    let mut d = list_decoder(None, vec![1, 2, 0]);
    let b = d.next_batch(3, None).unwrap();
    assert_eq!(b.offsets, vec![0, 1, 3, 3]);
    assert_eq!(b.child_rows, 3);
    assert!(b.nulls.is_none());
}

#[test]
fn list_last_row_null() {
    let mut d = list_decoder(Some(vec![true, false, true, false]), vec![2, 3]);
    let b = d.next_batch(4, None).unwrap();
    assert_eq!(b.offsets, vec![0, 2, 2, 5, 5]);
    assert_eq!(b.child_rows, 5);
    assert_eq!(b.nulls, Some(vec![true, false, true, false]));
    assert_eq!(d.lengths.remaining(), 0);
}

#[test]
fn list_batch_past_end_fails() {
    let mut d = list_decoder(None, vec![1, 1]);
    assert!(matches!(d.next_batch(3, None), Err(OrcError::OutOfSpec { .. })));
    let mut d = list_decoder(Some(vec![true, true]), vec![1, 1]);
    assert!(matches!(d.next_batch(3, None), Err(OrcError::OutOfSpec { .. })));
}

#[test]
fn list_lengths_overflowing_offsets_fail() {
    let mut d = list_decoder(None, vec![2147483647, 1]);
    assert!(matches!(d.next_batch(2, None), Err(OrcError::OutOfSpec { .. })));
}

#[test]
fn list_under_all_null_parent_reads_nothing() {
    let mut d = list_decoder(Some(vec![true, true]), vec![4, 4]);
    let b = d.next_batch(3, Some(&[false, false, false][..])).unwrap();
    assert_eq!(b.offsets, vec![0, 0, 0, 0]);
    assert_eq!(b.child_rows, 0);
    assert_eq!(d.lengths.remaining(), 2);
    assert_eq!(d.present.as_ref().unwrap().remaining(), 2);
}

#[test]
fn list_in_two_batches_matches_one() {
    let present = vec![true, false, true, true, false, true];
    let lengths = vec![1, 2, 3, 4];
    let mut whole = list_decoder(Some(present.clone()), lengths.clone());
    let one = whole.next_batch(6, None).unwrap();

    let mut split = list_decoder(Some(present), lengths);
    let first = split.next_batch(4, None).unwrap();
    let second = split.next_batch(2, None).unwrap();
    let mut offsets = first.offsets.clone();
    let base = *offsets.last().unwrap();
    for o in &second.offsets[1..] {
        offsets.push(base + o);
    }
    let mut nulls = first.nulls.unwrap();
    nulls.extend(second.nulls.unwrap());
    assert_eq!(offsets, one.offsets);
    assert_eq!(Some(nulls), one.nulls);
    assert_eq!(first.child_rows + second.child_rows, one.child_rows);
}

#[test]
fn batches_sum_to_stripe_rows() {
    let mut remaining: u64 = 1025;
    let mut total = 0usize;
    let mut sizes = Vec::new();
    while remaining > 0 {
        let n = batch_len(remaining, 512);
        sizes.push(n);
        total += n;
        remaining -= n as u64;
    }
    assert_eq!(sizes, vec![512, 512, 1]);
    assert_eq!(total, 1025);
}
