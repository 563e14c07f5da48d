use vstd::prelude::*;

use crate::column::ColumnEncodingKind;

verus! {

/// Time unit that a timestamp column is materialised in.
#[derive(Debug, Clone, Copy, PartialEq, Eq, Structural)]
pub enum TimeUnit {
    Second,
    Millisecond,
    Microsecond,
    Nanosecond,
}

/// Every way in which reading a stripe can fail.
#[derive(Debug, Clone)]
pub enum OrcError {
    SeekError { msg: String },
    IoError { msg: String },
    EmptyFile,
    InvalidInput { msg: String },
    OutOfSpec { msg: String },
    MapBuilder { msg: String },
    StringBuilder { msg: String },
    DecodeFloat { msg: String },
    DecodeTimestamp { seconds: i64, nanoseconds: u64, to_time_unit: TimeUnit },
    DecodeProto { msg: String },
    NoTypes,
    UnsupportedType { kind: String },
    UnsupportedTypeVariant { msg: String },
    FieldNotFound { name: String },
    InvalidColumn { name: String },
    MismatchedSchema { orc_type: String, arrow_type: String },
    InvalidColumnEncoding { name: String, encoding: ColumnEncodingKind },
    AddDays,
    InvalidUft8 { msg: String },
    OutOfBound { index: usize },
    ConvertRecordBatch { msg: String },
    VarintTooLarge,
    Unexpected { msg: String },
    BuildZstdDecoder { msg: String },
    BuildSnappyDecoder { msg: String },
    BuildLzoDecoder { msg: String },
    BuildLz4Decoder { msg: String },
    Arrow { msg: String },
}

/// Builds an `OutOfSpec` error carrying `msg`.
pub fn out_of_spec(msg: &str) -> (r: OrcError)
    ensures
        r is OutOfSpec,
{
    OrcError::OutOfSpec { msg: msg.to_owned() }
}

} // verus!
