use datafusion_orc::error::OrcError;
use datafusion_orc::primitive::Int64ArrayDecoder;
use datafusion_orc::stream::{BoolStream, I64Stream};

fn decoder(present: Option<Vec<bool>>, values: Vec<i64>) -> Int64ArrayDecoder {
    Int64ArrayDecoder { present: present.map(BoolStream::new), values: I64Stream::new(values) }
}

#[test]
fn int_batch_without_presence() {
    let mut d = decoder(None, vec![4, 5, 6]);
    assert_eq!(d.next_batch(2, None).unwrap(), vec![Some(4), Some(5)]);
    assert_eq!(d.values.remaining(), 1);
}

#[test]
fn int_batch_with_nulls_reads_only_present_rows() {
    let mut d = decoder(Some(vec![true, false, false, true]), vec![10, 20, 30]);
    let v = d.next_batch(4, None).unwrap();
    assert_eq!(v, vec![Some(10), None, None, Some(20)]);
    assert_eq!(v.len(), 4);
    assert_eq!(d.values.remaining(), 1);
}

#[test]
fn int_batch_under_parent_mask() {
    let mut d = decoder(Some(vec![true, false]), vec![1, 2]);
    let parent = [false, true, true, false];
    let v = d.next_batch(4, Some(&parent[..])).unwrap();
    assert_eq!(v, vec![None, Some(1), None, None]);
    assert_eq!(d.values.remaining(), 1);
}

#[test]
fn int_all_null_reads_no_values() {
    let mut d = decoder(Some(vec![false, false, false]), vec![]);
    assert_eq!(d.next_batch(3, None).unwrap(), vec![None, None, None]);
}

#[test]
fn int_batch_past_end_fails() {
    let mut d = decoder(None, vec![1]);
    assert!(matches!(d.next_batch(2, None), Err(OrcError::OutOfSpec { .. })));
}

#[test]
fn int_from_streams() {
    // present: 0b1011_0000 -> rows present, null, present, present
    // data: a run of three from 1 by steps of 2
    let mut d = Int64ArrayDecoder::from_streams(Some(&[0xff, 0xb0][..]), &[0x00, 0x02, 0x02], 4)
        .unwrap();
    assert_eq!(d.next_batch(4, None).unwrap(), vec![Some(1), None, Some(3), Some(5)]);
}

use datafusion_orc::list::ListArrayDecoder;
use datafusion_orc::present::StructArrayDecoder;
use datafusion_orc::stream::U64Stream;

#[test]
fn null_struct_rows_read_nothing_below() {
    // struct<a: int, b: list<int>> over four rows, the second and fourth null
    let mut s = StructArrayDecoder { present: Some(BoolStream::new(vec![true, false, true, false])) };
    let mut a = decoder(Some(vec![true, false]), vec![11]);
    let mut b = ListArrayDecoder::new(None, U64Stream::new(vec![2, 1, 9]));
    let mut items = decoder(None, vec![1, 2, 3, 4]);

    let mask = s.next_batch(4, None).unwrap().unwrap();
    assert_eq!(mask, vec![true, false, true, false]);
    assert_eq!(a.next_batch(4, Some(&mask[..])).unwrap(), vec![Some(11), None, None, None]);
    let lists = b.next_batch(4, Some(&mask[..])).unwrap();
    assert_eq!(lists.offsets, vec![0, 2, 2, 3, 3]);
    assert_eq!(lists.child_rows, 3);
    assert_eq!(b.lengths.remaining(), 1);
    assert_eq!(items.next_batch(lists.child_rows, None).unwrap(), vec![Some(1), Some(2), Some(3)]);
    assert_eq!(items.values.remaining(), 1);
}
