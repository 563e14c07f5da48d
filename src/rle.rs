use vstd::prelude::*;

use crate::error::{out_of_spec, OrcError};
use crate::stream::BoolStream;

verus! {

/// The bytes that an ORC byte-run-length stream encodes, `None` where it is
/// cut short. A control byte below 128 starts a run of `control + 3` copies
/// of the byte after it; a control byte `c` of 128 or more is followed by
/// `256 - c` literal bytes.
pub open spec fn byte_rle(b: Seq<u8>) -> Option<Seq<u8>>
    decreases b.len(),
{
    if b.len() == 0 {
        Some(Seq::empty())
    } else if b[0] < 128 {
        if b.len() < 2 {
            None
        } else {
            match byte_rle(b.skip(2)) {
                Some(r) => Some(Seq::new(b[0] as nat + 3, |_i: int| b[1]) + r),
                None => None,
            }
        }
    } else {
        let n = 256 - b[0] as int;
        if b.len() < 1 + n {
            None
        } else {
            match byte_rle(b.skip(1 + n)) {
                Some(r) => Some(b.subrange(1, 1 + n) + r),
                None => None,
            }
        }
    }
}

/// The eight bits of a byte, most significant first.
pub open spec fn byte_bits(x: u8) -> Seq<bool> {
    Seq::new(8, |j: int| (x >> ((7 - j) as u8)) & 1u8 == 1u8)
}

/// The bits of a sequence of bytes, each byte most significant bit first.
pub open spec fn unpack_bits(b: Seq<u8>) -> Seq<bool>
    decreases b.len(),
{
    if b.len() == 0 {
        Seq::empty()
    } else {
        unpack_bits(b.drop_last()) + byte_bits(b.last())
    }
}

/// The first `n` entries of `s`, or all of it where it is shorter.
pub open spec fn first_rows<A>(s: Seq<A>, n: nat) -> Seq<A> {
    if n <= s.len() {
        s.take(n as int)
    } else {
        s
    }
}

pub open spec fn prepend_bytes(out: Seq<u8>, r: Option<Seq<u8>>) -> Option<Seq<u8>> {
    match r {
        Some(s) => Some(out + s),
        None => None,
    }
}

/// Decodes an ORC byte-run-length stream.
pub fn decode_byte_rle(b: &[u8]) -> (r: Result<Vec<u8>, OrcError>)
    ensures
        r is Err <==> byte_rle(b@) is None,
        r matches Ok(v) ==> byte_rle(b@) == Some(v@),
{
    let mut out: Vec<u8> = Vec::new();
    let mut pos: usize = 0;
    proof {
        assert(b@.skip(0) =~= b@);
        assert(Seq::<u8>::empty() + Seq::<u8>::empty() =~= Seq::<u8>::empty());
    }
    while pos < b.len()
        invariant
            pos <= b@.len(),
            byte_rle(b@) == prepend_bytes(out@, byte_rle(b@.skip(pos as int))),
        decreases b@.len() - pos,
    {
        let ghost rest = b@.skip(pos as int);
        let ghost before = out@;
        let control = b[pos];
        if control < 128 {
            if b.len() - pos < 2 {
                return Err(out_of_spec("byte run cut short"));
            }
            let value = b[pos + 1];
            let count: usize = control as usize + 3;
            let mut i: usize = 0;
            while i < count
                invariant
                    i <= count,
                    out@ == before + Seq::new(i as nat, |_j: int| value),
                decreases count - i,
            {
                out.push(value);
                i = i + 1;
                assert(out@ =~= before + Seq::new(i as nat, |_j: int| value));
            }
            proof {
                assert(rest.skip(2) =~= b@.skip(pos + 2));
                let run = Seq::new(count as nat, |_j: int| value);
                assert(run =~= Seq::new(rest[0] as nat + 3, |_i: int| rest[1]));
                if let Some(t) = byte_rle(b@.skip(pos + 2)) {
                    assert(before + (run + t) =~= before + run + t);
                }
            }
            pos = pos + 2;
        } else {
            let n: usize = 256 - control as usize;
            if b.len() - pos - 1 < n {
                return Err(out_of_spec("byte literals cut short"));
            }
            let mut i: usize = 0;
            while i < n
                invariant
                    i <= n,
                    pos + 1 + n <= b.len(),
                    out@ == before + b@.subrange(pos + 1, pos + 1 + i),
                decreases n - i,
            {
                out.push(b[pos + 1 + i]);
                i = i + 1;
                assert(out@ =~= before + b@.subrange(pos + 1, pos + 1 + i));
            }
            proof {
                assert(rest.skip(1 + n) =~= b@.skip(pos + 1 + n));
                assert(rest.subrange(1, 1 + n as int) =~= b@.subrange(pos + 1, pos + 1 + n));
                if let Some(t) = byte_rle(b@.skip(pos + 1 + n)) {
                    let lit = b@.subrange(pos + 1, pos + 1 + n);
                    assert(before + (lit + t) =~= before + lit + t);
                }
            }
            pos = pos + 1 + n;
        }
    }
    proof {
        assert(b@.skip(pos as int) =~= Seq::<u8>::empty());
        assert(out@ + Seq::<u8>::empty() =~= out@);
    }
    Ok(out)
}

/// Unpacks bytes to bits, each byte most significant bit first.
pub fn unpack_bytes(b: &Vec<u8>) -> (r: Vec<bool>)
    ensures
        r@ == unpack_bits(b@),
{
    let mut out: Vec<bool> = Vec::new();
    let mut i: usize = 0;
    proof {
        assert(b@.take(0) =~= Seq::<u8>::empty());
    }
    while i < b.len()
        invariant
            i <= b@.len(),
            out@ == unpack_bits(b@.take(i as int)),
        decreases b@.len() - i,
    {
        let x = b[i];
        let ghost before = out@;
        let mut j: u8 = 0;
        while j < 8
            invariant
                j <= 8,
                x == b@[i as int],
                out@ == before + byte_bits(x).take(j as int),
            decreases 8 - j,
        {
            out.push((x >> (7 - j)) & 1u8 == 1u8);
            j = j + 1;
            assert(out@ =~= before + byte_bits(x).take(j as int));
        }
        proof {
            assert(b@.take(i + 1).drop_last() =~= b@.take(i as int));
            assert(byte_bits(x).take(8) =~= byte_bits(x));
        }
        i = i + 1;
    }
    assert(b@.take(b@.len() as int) =~= b@);
    out
}

/// Decodes a presence (or boolean) stream of a stripe of `rows` rows: a
/// byte-run-length stream whose bytes hold one bit per row, most
/// significant bit first. Bits past the last row are padding and dropped.
pub fn decode_present_stream(b: &[u8], rows: usize) -> (r: Result<BoolStream, OrcError>)
    ensures
        r is Err <==> byte_rle(b@) is None,
        r matches Ok(s) ==> s.wf() && s.rest() == first_rows(
            unpack_bits(byte_rle(b@)->Some_0),
            rows as nat,
        ),
{
    let bytes = match decode_byte_rle(b) {
        Ok(v) => v,
        Err(e) => return Err(e),
    };
    let bits = unpack_bytes(&bytes);
    let mut out: Vec<bool> = Vec::new();
    let mut i: usize = 0;
    while i < bits.len() && i < rows
        invariant
            i <= bits@.len(),
            i <= rows,
            out@ == bits@.take(i as int),
        decreases bits@.len() - i,
    {
        out.push(bits[i]);
        i = i + 1;
        assert(out@ =~= bits@.take(i as int));
    }
    proof {
        if rows > bits@.len() {
            assert(bits@.take(i as int) =~= bits@);
        }
    }
    Ok(BoolStream::new(out))
}

/// The outcome of reading one base-128 varint.
pub enum Varint {
    /// The bytes end before the varint does.
    Truncated,
    /// The value read so far no longer fits in 64 bits.
    TooLarge,
    /// The value and the position just past its last byte.
    Value(u64, nat),
}

/// Reads a base-128 varint from position `i` of `b`, low groups first, the
/// groups before `i` having added up to `acc` and the group at `i` being
/// worth `mult` times its 7 bits. A byte below 128 ends the varint.
pub open spec fn varint_from(b: Seq<u8>, i: nat, acc: nat, mult: nat) -> Varint
    decreases b.len() - i,
{
    if i >= b.len() {
        Varint::Truncated
    } else {
        let acc2 = acc + (b[i as int] % 128) as nat * mult;
        if acc2 > u64::MAX {
            Varint::TooLarge
        } else if b[i as int] < 128 {
            Varint::Value(acc2 as u64, i + 1)
        } else {
            varint_from(b, i + 1, acc2, mult * 128)
        }
    }
}

/// Reads an unsigned varint at position `pos` of `b`; returns the value and
/// the position just past it.
pub fn read_varint(b: &[u8], pos: usize) -> (r: Result<(u64, usize), OrcError>)
    ensures
        match varint_from(b@, pos as nat, 0, 1) {
            Varint::Truncated => r matches Err(OrcError::OutOfSpec { .. }),
            Varint::TooLarge => r matches Err(OrcError::VarintTooLarge),
            Varint::Value(v, end) => r == Ok::<(u64, usize), OrcError>((v, end as usize)),
        },
{
    let mut i: usize = pos;
    let mut acc: u64 = 0;
    let mut mult: u128 = 1;
    let mut big: bool = false;
    let ghost mut m: nat = 1;
    while i < b.len()
        invariant
            varint_from(b@, pos as nat, 0, 1) == varint_from(b@, i as nat, acc as nat, m),
            m > 0,
            big ==> m > u64::MAX,
            !big ==> mult == m && m <= u64::MAX,
        decreases b@.len() - i,
    {
        let g: u8 = b[i] % 128;
        let next: u128;
        if big {
            if g != 0 {
                proof {
                    assert((g as nat) * m >= m) by (nonlinear_arith)
                        requires
                            g >= 1,
                            m > 0,
                    ;
                }
                return Err(OrcError::VarintTooLarge);
            }
            proof {
                assert((g as nat) * m == 0) by (nonlinear_arith)
                    requires
                        g == 0,
                ;
            }
            next = acc as u128;
        } else {
            proof {
                assert((g as nat) * m <= 127 * u64::MAX) by (nonlinear_arith)
                    requires
                        g < 128,
                        m <= u64::MAX,
                ;
            }
            next = acc as u128 + (g as u128) * mult;
        }
        if next > u64::MAX as u128 {
            return Err(OrcError::VarintTooLarge);
        }
        if b[i] < 128 {
            return Ok((next as u64, i + 1));
        }
        acc = next as u64;
        proof {
            m = m * 128;
        }
        if !big {
            if mult > (u64::MAX as u128) / 128 {
                big = true;
            } else {
                mult = mult * 128;
            }
        }
        i = i + 1;
    }
    Err(out_of_spec("varint cut short"))
}

pub proof fn lemma_varint_end(b: Seq<u8>, i: nat, acc: nat, mult: nat)
    ensures
        varint_from(b, i, acc, mult) matches Varint::Value(_, end) ==> i < end <= b.len(),
    decreases b.len() - i,
{
    if i < b.len() {
        let acc2 = acc + (b[i as int] % 128) as nat * mult;
        if acc2 <= u64::MAX && b[i as int] >= 128 {
            lemma_varint_end(b, i + 1, acc2, mult * 128);
        }
    }
}

/// `count` unsigned varints one after the other from position `i`: their
/// values and the position past the last, `None` where one fails.
pub open spec fn literals_from(b: Seq<u8>, i: nat, count: nat) -> Option<(Seq<u64>, nat)>
    decreases count,
{
    if count == 0 {
        Some((Seq::empty(), i))
    } else {
        match varint_from(b, i, 0, 1) {
            Varint::Value(v, end) => match literals_from(b, end, (count - 1) as nat) {
                Some((s, e)) => Some((seq![v] + s, e)),
                None => None,
            },
            _ => None,
        }
    }
}

/// Whether a run of `n` values from `base` by steps of `delta` stays
/// within the unsigned 64-bit range; it does where its last value does.
pub open spec fn run_fits(base: u64, delta: int, n: nat) -> bool {
    0 <= base + (n - 1) * delta <= u64::MAX
}

/// The values of an ORC integer run-length stream (version 1, unsigned)
/// from position `i`. A control byte below 128 starts a run of
/// `control + 3` values: a signed step byte, then the base as a varint.
/// A control byte `c` of 128 or more is followed by `256 - c` varints.
pub open spec fn rle_v1_from(b: Seq<u8>, i: nat) -> Option<Seq<u64>>
    decreases b.len() - i,
{
    if i >= b.len() {
        Some(Seq::empty())
    } else if b[i as int] < 128 {
        if i + 2 > b.len() {
            None
        } else {
            let n = b[i as int] as nat + 3;
            let delta = (b[i + 1int] as i8) as int;
            match varint_from(b, i + 2, 0, 1) {
                Varint::Value(base, end) => if i < end <= b.len() && run_fits(base, delta, n) {
                    match rle_v1_from(b, end) {
                        Some(r) => Some(Seq::new(n, |j: int| (base + j * delta) as u64) + r),
                        None => None,
                    }
                } else {
                    None
                },
                _ => None,
            }
        }
    } else {
        match literals_from(b, i + 1, (256 - b[i as int]) as nat) {
            Some((s, end)) => if i < end <= b.len() {
                match rle_v1_from(b, end) {
                    Some(r) => Some(s + r),
                    None => None,
                }
            } else {
                None
            },
            None => None,
        }
    }
}

pub open spec fn prepend_values(out: Seq<u64>, r: Option<Seq<u64>>) -> Option<Seq<u64>> {
    match r {
        Some(s) => Some(out + s),
        None => None,
    }
}

/// Decodes an unsigned ORC integer run-length stream (version 1), as
/// lengths and dictionary indices are written.
pub fn decode_unsigned_rle_v1(b: &[u8]) -> (r: Result<Vec<u64>, OrcError>)
    ensures
        r is Err <==> rle_v1_from(b@, 0) is None,
        r matches Ok(v) ==> rle_v1_from(b@, 0) == Some(v@),
{
    let mut out: Vec<u64> = Vec::new();
    let mut pos: usize = 0;
    let blen = b.len();
    assert(out@ + Seq::<u64>::empty() =~= out@);
    while pos < b.len()
        invariant
            blen == b@.len(),
            pos <= b@.len(),
            rle_v1_from(b@, 0) == prepend_values(out@, rle_v1_from(b@, pos as nat)),
        decreases b@.len() - pos,
    {
        let ghost before = out@;
        let control = b[pos];
        if control < 128 {
            if b.len() - pos < 2 {
                return Err(out_of_spec("integer run cut short"));
            }
            let delta = #[verifier::truncate] (b[pos + 1] as i8);
            proof {
                lemma_varint_end(b@, (pos + 2) as nat, 0, 1);
            }
            let (base, end) = match read_varint(b, pos + 2) {
                Ok(x) => x,
                Err(e) => return Err(e),
            };
            let n: usize = control as usize + 3;
            proof {
                assert(-20000 <= (n as int - 1) * (delta as int) <= 20000) by (nonlinear_arith)
                    requires
                        3 <= n <= 130,
                        -128 <= delta <= 127,
                ;
            }
            let last: i128 = base as i128 + (n as i128 - 1) * (delta as i128);
            if last < 0 || last > u64::MAX as i128 {
                return Err(out_of_spec("integer run leaves the unsigned range"));
            }
            let mut j: usize = 0;
            while j < n
                invariant
                    j <= n,
                    n >= 3,
                    0 <= base + (n - 1) * (delta as int) <= u64::MAX,
                    out@ == before + Seq::new(j as nat, |k: int| (base + k * (delta as int)) as u64),
                decreases n - j,
            {
                proof {
                    assert(0 <= base + j * (delta as int) <= u64::MAX) by (nonlinear_arith)
                        requires
                            j < n,
                            0 <= base + (n - 1) * (delta as int) <= u64::MAX,
                            0 <= base <= u64::MAX,
                    ;
                }
                let v: i128 = base as i128 + (j as i128) * (delta as i128);
                out.push(v as u64);
                j = j + 1;
                assert(out@ =~= before + Seq::new(
                    j as nat,
                    |k: int| (base + k * (delta as int)) as u64,
                ));
            }
            proof {
                let run = Seq::new(n as nat, |k: int| (base + k * (delta as int)) as u64);
                if let Some(t) = rle_v1_from(b@, end as nat) {
                    assert(before + (run + t) =~= before + run + t);
                }
            }
            pos = end;
        } else {
            let count: usize = 256 - control as usize;
            let ghost start = (pos + 1) as nat;
            let mut k: usize = 0;
            let mut q: usize = pos + 1;
            let ghost mut got: Seq<u64> = Seq::empty();
            assert(got + Seq::<u64>::empty() =~= got);
            while k < count
                invariant
                    blen == b@.len(),
                    pos < b@.len(),
                    b@[pos as int] >= 128,
                    count == 256 - b@[pos as int],
                    start == pos + 1,
                    rle_v1_from(b@, 0) == prepend_values(before, rle_v1_from(b@, pos as nat)),
                    k <= count,
                    pos < q <= b@.len(),
                    out@ == before + got,
                    literals_from(b@, start, count as nat) == match literals_from(
                        b@,
                        q as nat,
                        (count - k) as nat,
                    ) {
                        Some((s, e)) => Some((got + s, e)),
                        None => None,
                    },
                decreases count - k,
            {
                proof {
                    lemma_varint_end(b@, q as nat, 0, 1);
                }
                let (v, e) = match read_varint(b, q) {
                    Ok(x) => x,
                    Err(err) => {
                        proof {
                            assert(literals_from(b@, q as nat, (count - k) as nat) is None);
                            assert(rle_v1_from(b@, pos as nat) is None);
                        }
                        return Err(err);
                    },
                };
                out.push(v);
                proof {
                    if let Some((s, e2)) = literals_from(b@, e as nat, (count - k - 1) as nat) {
                        assert(got + (seq![v] + s) =~= got.push(v) + s);
                    }
                    got = got.push(v);
                }
                q = e;
                k = k + 1;
            }
            proof {
                assert(got + Seq::<u64>::empty() =~= got);
                if let Some(t) = rle_v1_from(b@, q as nat) {
                    assert(before + (got + t) =~= before + got + t);
                }
            }
            pos = q;
        }
    }
    proof {
        assert(out@ + Seq::<u64>::empty() =~= out@);
    }
    Ok(out)
}

/// Zigzag decoding: even values stand for themselves halved, odd ones for
/// negative numbers.
pub open spec fn zigzag(u: u64) -> int {
    if u % 2 == 0 {
        (u / 2) as int
    } else {
        -((u / 2) as int) - 1
    }
}

pub fn zigzag_decode(u: u64) -> (r: i64)
    ensures
        r == zigzag(u),
{
    if u % 2 == 0 {
        (u / 2) as i64
    } else {
        -((u / 2) as i64) - 1
    }
}

/// Whether a run of `n` values from `base` by steps of `delta` stays
/// within the signed 64-bit range; it does where its last value does.
pub open spec fn signed_run_fits(base: int, delta: int, n: nat) -> bool {
    i64::MIN <= base + (n - 1) * delta <= i64::MAX
}

/// The values of an ORC integer run-length stream (version 1, signed) from
/// position `i`: as the unsigned form, with each varint zigzag-decoded and
/// runs stepping in the signed range.
pub open spec fn signed_rle_v1_from(b: Seq<u8>, i: nat) -> Option<Seq<i64>>
    decreases b.len() - i,
{
    if i >= b.len() {
        Some(Seq::empty())
    } else if b[i as int] < 128 {
        if i + 2 > b.len() {
            None
        } else {
            let n = b[i as int] as nat + 3;
            let delta = (b[i + 1int] as i8) as int;
            match varint_from(b, i + 2, 0, 1) {
                Varint::Value(u, end) => if i < end <= b.len() && signed_run_fits(
                    zigzag(u),
                    delta,
                    n,
                ) {
                    match signed_rle_v1_from(b, end) {
                        Some(r) => Some(Seq::new(n, |j: int| (zigzag(u) + j * delta) as i64) + r),
                        None => None,
                    }
                } else {
                    None
                },
                _ => None,
            }
        }
    } else {
        match literals_from(b, i + 1, (256 - b[i as int]) as nat) {
            Some((s, end)) => if i < end <= b.len() {
                match signed_rle_v1_from(b, end) {
                    Some(r) => Some(s.map_values(|u: u64| zigzag(u) as i64) + r),
                    None => None,
                }
            } else {
                None
            },
            None => None,
        }
    }
}

pub open spec fn prepend_signed(out: Seq<i64>, r: Option<Seq<i64>>) -> Option<Seq<i64>> {
    match r {
        Some(s) => Some(out + s),
        None => None,
    }
}

/// Decodes a signed ORC integer run-length stream (version 1), as the
/// values of integer, date and timestamp columns are written.
pub fn decode_signed_rle_v1(b: &[u8]) -> (r: Result<Vec<i64>, OrcError>)
    ensures
        r is Err <==> signed_rle_v1_from(b@, 0) is None,
        r matches Ok(v) ==> signed_rle_v1_from(b@, 0) == Some(v@),
{
    let mut out: Vec<i64> = Vec::new();
    let mut pos: usize = 0;
    let blen = b.len();
    assert(out@ + Seq::<i64>::empty() =~= out@);
    while pos < b.len()
        invariant
            blen == b@.len(),
            pos <= b@.len(),
            signed_rle_v1_from(b@, 0) == prepend_signed(out@, signed_rle_v1_from(b@, pos as nat)),
        decreases b@.len() - pos,
    {
        let ghost before = out@;
        let control = b[pos];
        if control < 128 {
            if b.len() - pos < 2 {
                return Err(out_of_spec("integer run cut short"));
            }
            let delta = #[verifier::truncate] (b[pos + 1] as i8);
            proof {
                lemma_varint_end(b@, (pos + 2) as nat, 0, 1);
            }
            let (u, end) = match read_varint(b, pos + 2) {
                Ok(x) => x,
                Err(e) => return Err(e),
            };
            let base = zigzag_decode(u);
            let n: usize = control as usize + 3;
            proof {
                assert(-20000 <= (n as int - 1) * (delta as int) <= 20000) by (nonlinear_arith)
                    requires
                        3 <= n <= 130,
                        -128 <= delta <= 127,
                ;
            }
            let last: i128 = base as i128 + (n as i128 - 1) * (delta as i128);
            if last < i64::MIN as i128 || last > i64::MAX as i128 {
                return Err(out_of_spec("integer run leaves the signed range"));
            }
            let mut j: usize = 0;
            while j < n
                invariant
                    j <= n,
                    n >= 3,
                    i64::MIN <= base + (n - 1) * (delta as int) <= i64::MAX,
                    out@ == before + Seq::new(j as nat, |k: int| (base + k * (delta as int)) as i64),
                decreases n - j,
            {
                proof {
                    assert(i64::MIN <= base + j * (delta as int) <= i64::MAX) by (nonlinear_arith)
                        requires
                            j < n,
                            i64::MIN <= base + (n - 1) * (delta as int) <= i64::MAX,
                            i64::MIN <= base <= i64::MAX,
                    ;
                }
                let v: i128 = base as i128 + (j as i128) * (delta as i128);
                out.push(v as i64);
                j = j + 1;
                assert(out@ =~= before + Seq::new(
                    j as nat,
                    |k: int| (base + k * (delta as int)) as i64,
                ));
            }
            proof {
                let run = Seq::new(n as nat, |k: int| (base + k * (delta as int)) as i64);
                if let Some(t) = signed_rle_v1_from(b@, end as nat) {
                    assert(before + (run + t) =~= before + run + t);
                }
            }
            pos = end;
        } else {
            let count: usize = 256 - control as usize;
            let ghost start = (pos + 1) as nat;
            let mut k: usize = 0;
            let mut q: usize = pos + 1;
            let ghost mut got: Seq<u64> = Seq::empty();
            assert(got + Seq::<u64>::empty() =~= got);
            while k < count
                invariant
                    blen == b@.len(),
                    pos < b@.len(),
                    b@[pos as int] >= 128,
                    count == 256 - b@[pos as int],
                    start == pos + 1,
                    signed_rle_v1_from(b@, 0) == prepend_signed(
                        before,
                        signed_rle_v1_from(b@, pos as nat),
                    ),
                    k <= count,
                    pos < q <= b@.len(),
                    out@ == before + got.map_values(|u: u64| zigzag(u) as i64),
                    literals_from(b@, start, count as nat) == match literals_from(
                        b@,
                        q as nat,
                        (count - k) as nat,
                    ) {
                        Some((s, e)) => Some((got + s, e)),
                        None => None,
                    },
                decreases count - k,
            {
                proof {
                    lemma_varint_end(b@, q as nat, 0, 1);
                }
                let (u, e) = match read_varint(b, q) {
                    Ok(x) => x,
                    Err(err) => {
                        proof {
                            assert(literals_from(b@, q as nat, (count - k) as nat) is None);
                            assert(signed_rle_v1_from(b@, pos as nat) is None);
                        }
                        return Err(err);
                    },
                };
                out.push(zigzag_decode(u));
                proof {
                    if let Some((s, e2)) = literals_from(b@, e as nat, (count - k - 1) as nat) {
                        assert(got + (seq![u] + s) =~= got.push(u) + s);
                    }
                    assert(got.push(u).map_values(|x: u64| zigzag(x) as i64) =~= got.map_values(
                        |x: u64| zigzag(x) as i64,
                    ).push(zigzag(u) as i64));
                    got = got.push(u);
                }
                q = e;
                k = k + 1;
            }
            proof {
                assert(got + Seq::<u64>::empty() =~= got);
                let vals = got.map_values(|x: u64| zigzag(x) as i64);
                if let Some(t) = signed_rle_v1_from(b@, q as nat) {
                    assert(before + (vals + t) =~= before + vals + t);
                }
            }
            pos = q;
        }
    }
    proof {
        assert(out@ + Seq::<i64>::empty() =~= out@);
    }
    Ok(out)
}

} // verus!
