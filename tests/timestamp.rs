use datafusion_orc::error::{OrcError, TimeUnit};
use datafusion_orc::timestamp::{decode_nanoseconds, timestamp_to_unit};

#[test]
fn nanoseconds_without_zeros() {
    assert_eq!(decode_nanoseconds(40).unwrap(), 5);
}

#[test]
fn nanoseconds_with_trailing_zeros() {
    // significant part 1, low bits 2: three trailing zeros
    assert_eq!(decode_nanoseconds((1 << 3) | 2).unwrap(), 1000);
    // significant part 5, low bits 7: eight trailing zeros
    assert_eq!(decode_nanoseconds((5 << 3) | 7).unwrap(), 500_000_000);
}

#[test]
fn nanoseconds_overflow_fails() {
    assert!(matches!(decode_nanoseconds(u64::MAX), Err(OrcError::OutOfSpec { .. })));
}

#[test]
fn orc_epoch_is_2015() {
    assert_eq!(timestamp_to_unit(0, 0, TimeUnit::Second).unwrap(), 1_420_070_400);
    assert_eq!(
        timestamp_to_unit(0, 0, TimeUnit::Nanosecond).unwrap(),
        1_420_070_400_000_000_000
    );
}

#[test]
fn timestamp_units_drop_sub_unit_nanos() {
    assert_eq!(timestamp_to_unit(1, 1_500_000, TimeUnit::Millisecond).unwrap(), 1_420_070_401_001);
    assert_eq!(timestamp_to_unit(-1, 999, TimeUnit::Microsecond).unwrap(), 1_420_070_399_000_000);
}

#[test]
fn timestamp_overflow_is_decode_timestamp() {
    match timestamp_to_unit(i64::MAX - 1_420_070_400, 0, TimeUnit::Nanosecond) {
        Err(OrcError::DecodeTimestamp { seconds, nanoseconds, to_time_unit }) => {
            assert_eq!(seconds, i64::MAX - 1_420_070_400);
            assert_eq!(nanoseconds, 0);
            assert_eq!(to_time_unit, TimeUnit::Nanosecond);
        }
        _ => panic!("expected a timestamp overflow"),
    }
}
