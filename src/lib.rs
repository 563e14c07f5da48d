//! Stripe decode core for ORC files.
//!
//! - `schema`, `column`: the schema tree and the per-stripe column
//!   descriptors derived from it.
//! - `rle`, `rle2`: byte run-length decoding, presence bits, varints and
//!   integer run-length decoding in both versions.
//! - `timestamp`, `strings`: timestamp and string value decoding.
//! - `stream`: decoded streams read batch by batch.
//! - `present`: presence derivation under a parent mask, shared by every
//!   composite column, and the struct decoder.
//! - `list`: lengths, offsets and batches of list and map columns.
//! - `primitive`: batches of integer columns.

pub mod column;
pub mod error;
pub mod list;
pub mod present;
pub mod primitive;
pub mod rle;
pub mod rle2;
pub mod schema;
pub mod stream;
pub mod strings;
pub mod timestamp;
