use datafusion_orc::error::OrcError;
use datafusion_orc::strings::{lookup_dictionary, split_by_lengths};

#[test]
fn split_strings_by_lengths() {
    let v = split_by_lengths(b"helloworld!", &[5, 0, 5]).unwrap();
    assert_eq!(v, vec![b"hello".to_vec(), vec![], b"world".to_vec()]);
}

#[test]
fn split_leaves_trailing_bytes() {
    let v = split_by_lengths(b"abc", &[1]).unwrap();
    assert_eq!(v, vec![b"a".to_vec()]);
}

#[test]
fn split_past_end_fails() {
    assert!(matches!(split_by_lengths(b"abc", &[2, 2]), Err(OrcError::OutOfSpec { .. })));
}

#[test]
fn dictionary_lookup_by_index() {
    let dict = split_by_lengths(b"redgreenblue", &[3, 5, 4]).unwrap();
    let v = lookup_dictionary(&dict, &[2, 0, 0, 1]).unwrap();
    assert_eq!(v, vec![b"blue".to_vec(), b"red".to_vec(), b"red".to_vec(), b"green".to_vec()]);
}

#[test]
fn dictionary_index_out_of_bound() {
    let dict = vec![b"a".to_vec(), b"b".to_vec()];
    match lookup_dictionary(&dict, &[0, 1, 2, 7]) {
        Err(OrcError::OutOfBound { index }) => assert_eq!(index, 2),
        _ => panic!("expected an out of bound index"),
    }
}
