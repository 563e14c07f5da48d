use vstd::prelude::*;

use crate::error::{out_of_spec, OrcError, TimeUnit};

verus! {

/// Seconds from the Unix epoch to the ORC epoch, 2015-01-01T00:00:00Z.
pub const ORC_EPOCH_UNIX_SECONDS: i64 = 1420070400;

pub open spec fn pow10(k: nat) -> nat
    decreases k,
{
    if k == 0 {
        1
    } else {
        10 * pow10((k - 1) as nat)
    }
}

/// The nanoseconds that an encoded value stands for: its low 3 bits `z`
/// count trailing zeros, `z + 1` of them where `z` is not 0; the rest is
/// the significant part.
pub open spec fn nanos_value(encoded: u64) -> nat {
    let z = (encoded % 8) as nat;
    let v = (encoded / 8) as nat;
    if z == 0 {
        v
    } else {
        v * pow10(z + 1)
    }
}

/// Units of `unit` in one second.
pub open spec fn units_per_second(unit: TimeUnit) -> int {
    match unit {
        TimeUnit::Second => 1,
        TimeUnit::Millisecond => 1_000,
        TimeUnit::Microsecond => 1_000_000,
        TimeUnit::Nanosecond => 1_000_000_000,
    }
}

/// The instant `seconds` after the ORC epoch plus `nanos` nanoseconds,
/// counted in `unit` from the Unix epoch, sub-unit nanoseconds dropped.
pub open spec fn timestamp_value(seconds: i64, nanos: u64, unit: TimeUnit) -> int {
    (seconds + ORC_EPOCH_UNIX_SECONDS) * units_per_second(unit) + nanos as int / (1_000_000_000int
        / units_per_second(unit))
}

/// Decodes the nanoseconds of a timestamp from their encoded form; fails
/// where they do not fit 64 bits.
pub fn decode_nanoseconds(encoded: u64) -> (r: Result<u64, OrcError>)
    ensures
        r is Err <==> nanos_value(encoded) > u64::MAX,
        r matches Ok(n) ==> n == nanos_value(encoded),
{
    let z = encoded % 8;
    let v = encoded / 8;
    if z == 0 {
        return Ok(v);
    }
    let mut result: u64 = v;
    let mut i: u64 = 0;
    proof {
        assert(pow10(0) == 1);
        assert(v * pow10(0) == v);
    }
    while i <= z
        invariant
            z == encoded % 8,
            v == encoded / 8,
            1 <= z <= 7,
            i <= z + 1,
            result == v * pow10(i as nat),
        decreases z + 1 - i,
    {
        proof {
            assert(pow10((i + 1) as nat) == 10 * pow10(i as nat));
        }
        if result > u64::MAX / 10 {
            proof {
                assert(10 * result > u64::MAX);
                lemma_pow10_grows(i as nat + 1, z as nat + 1);
                assert(v * pow10((i + 1) as nat) <= v * pow10(z as nat + 1)) by (nonlinear_arith)
                    requires
                        pow10((i + 1) as nat) <= pow10(z as nat + 1),
                ;
                assert(v * pow10((i + 1) as nat) == 10 * result) by (nonlinear_arith)
                    requires
                        result == v * pow10(i as nat),
                        pow10((i + 1) as nat) == 10 * pow10(i as nat),
                ;
            }
            return Err(out_of_spec("timestamp nanoseconds overflow"));
        }
        proof {
            assert(v * pow10((i + 1) as nat) == 10 * result) by (nonlinear_arith)
                requires
                    result == v * pow10(i as nat),
                    pow10((i + 1) as nat) == 10 * pow10(i as nat),
            ;
        }
        result = result * 10;
        i = i + 1;
    }
    Ok(result)
}

pub proof fn lemma_pow10_grows(i: nat, j: nat)
    requires
        i <= j,
    ensures
        1 <= pow10(i) <= pow10(j),
    decreases j,
{
    if j > 0 && i < j {
        lemma_pow10_grows(i, (j - 1) as nat);
    } else if j > 0 {
        lemma_pow10_grows((j - 1) as nat, (j - 1) as nat);
    }
}

/// Converts a timestamp read from a stripe, `seconds` after the ORC epoch
/// and `nanos` nanoseconds, to `unit` since the Unix epoch. Fails with
/// `DecodeTimestamp` where the result does not fit an `i64`.
pub fn timestamp_to_unit(seconds: i64, nanos: u64, unit: TimeUnit) -> (r: Result<i64, OrcError>)
    ensures
        r is Err <==> !(i64::MIN <= timestamp_value(seconds, nanos, unit) <= i64::MAX),
        r matches Ok(t) ==> t == timestamp_value(seconds, nanos, unit),
        r matches Err(e) ==> e == (OrcError::DecodeTimestamp {
            seconds,
            nanoseconds: nanos,
            to_time_unit: unit,
        }),
{
    let per_second: i128 = match unit {
        TimeUnit::Second => 1,
        TimeUnit::Millisecond => 1_000,
        TimeUnit::Microsecond => 1_000_000,
        TimeUnit::Nanosecond => 1_000_000_000,
    };
    let s: i128 = seconds as i128 + ORC_EPOCH_UNIX_SECONDS as i128;
    proof {
        assert(-20_000_000_000_000_000_000_000_000_000 <= s * per_second
            <= 20_000_000_000_000_000_000_000_000_000) by (nonlinear_arith)
            requires
                -10_000_000_000_000_000_000 <= s <= 10_000_000_000_000_000_000,
                1 <= per_second <= 1_000_000_000,
        ;
    }
    let total: i128 = s * per_second + (nanos as i128) / (1_000_000_000i128 / per_second);
    if total < i64::MIN as i128 || total > i64::MAX as i128 {
        return Err(OrcError::DecodeTimestamp { seconds, nanoseconds: nanos, to_time_unit: unit });
    }
    Ok(total as i64)
}

} // verus!
