use vstd::arithmetic::power2::{lemma2_to64, lemma2_to64_rest, lemma_pow2_strictly_increases, lemma_pow2_unfold, pow2};
use vstd::prelude::*;

use crate::column::ColumnEncodingKind;
use crate::error::{out_of_spec, OrcError};
use crate::rle::{decode_unsigned_rle_v1, rle_v1_from, lemma_varint_end, prepend_values, read_varint, varint_from, zigzag, zigzag_decode, Varint};

verus! {

/// Bit `k` of a byte sequence, counting from the most significant bit of
/// the first byte.
pub open spec fn bit_at(b: Seq<u8>, k: int) -> bool {
    (b[k / 8] >> ((7 - k % 8) as u8)) & 1u8 == 1u8
}

/// The number that a sequence of bits spells, most significant first.
pub open spec fn bits_value(s: Seq<bool>) -> nat
    decreases s.len(),
{
    if s.len() == 0 {
        0
    } else {
        2 * bits_value(s.drop_last()) + if s.last() {
            1nat
        } else {
            0nat
        }
    }
}

/// The `width`-bit number that starts at bit `pos` of `b`.
pub open spec fn packed_value(b: Seq<u8>, pos: int, width: nat) -> nat {
    bits_value(Seq::new(width, |t: int| bit_at(b, pos + t)))
}

pub proof fn lemma_bits_value_bound(s: Seq<bool>)
    ensures
        bits_value(s) < pow2(s.len()),
    decreases s.len(),
{
    if s.len() > 0 {
        lemma_bits_value_bound(s.drop_last());
        lemma_pow2_unfold(s.len());
    } else {
        lemma2_to64();
    }
}

/// The bit width that a 5-bit width code stands for in runs of fixed-width
/// values.
pub open spec fn width_of(code: u8) -> nat {
    if code < 24 {
        code as nat + 1
    } else if code == 24 {
        26
    } else if code == 25 {
        28
    } else if code == 26 {
        30
    } else if code == 27 {
        32
    } else if code == 28 {
        40
    } else if code == 29 {
        48
    } else if code == 30 {
        56
    } else {
        64
    }
}

/// Decodes a 5-bit width code.
pub fn bit_width(code: u8) -> (r: usize)
    requires
        code < 32,
    ensures
        r == width_of(code),
        1 <= r <= 64,
{
    if code < 24 {
        code as usize + 1
    } else if code == 24 {
        26
    } else if code == 25 {
        28
    } else if code == 26 {
        30
    } else if code == 27 {
        32
    } else if code == 28 {
        40
    } else if code == 29 {
        48
    } else if code == 30 {
        56
    } else {
        64
    }
}

/// Reads the `width`-bit number that starts at bit `pos` of `b`.
pub fn read_packed(b: &[u8], pos: usize, width: usize) -> (r: u64)
    requires
        width <= 64,
        pos + width <= 8 * b@.len(),
        pos + width <= usize::MAX,
    ensures
        r == packed_value(b@, pos as int, width as nat),
{
    let ghost f = |t: int| bit_at(b@, pos + t);
    let mut v: u64 = 0;
    let mut t: usize = 0;
    while t < width
        invariant
            width <= 64,
            pos + width <= 8 * b@.len(),
            pos + width <= usize::MAX,
            t <= width,
            f == (|t: int| bit_at(b@, pos + t)),
            v == bits_value(Seq::new(t as nat, f)),
        decreases width - t,
    {
        let k = pos + t;
        let bit = (b[k / 8] >> ((7 - k % 8) as u8)) & 1u8 == 1u8;
        proof {
            assert(Seq::new((t + 1) as nat, f).drop_last() =~= Seq::new(t as nat, f));
            lemma_bits_value_bound(Seq::new(t as nat, f));
            lemma2_to64();
            lemma2_to64_rest();
            if t < 63 {
                lemma_pow2_strictly_increases(t as nat, 63);
            }
            assert(bit == f(t as int));
        }
        v = 2 * v + if bit {
            1u64
        } else {
            0u64
        };
        t = t + 1;
    }
    v
}

/// The values of a delta run after its second: each the one before it plus
/// a step, `fixed` where the width is 0, else a `width`-bit magnitude read
/// from bit `pos` on, subtracted where `neg`. `None` where a value leaves
/// the unsigned 64-bit range.
pub open spec fn delta_tail(
    b: Seq<u8>,
    pos: int,
    width: nat,
    neg: bool,
    fixed: int,
    prev: int,
    count: nat,
) -> Option<Seq<u64>>
    decreases count,
{
    if count == 0 {
        Some(Seq::empty())
    } else {
        let m = packed_value(b, pos, width) as int;
        let d = if width == 0 {
            fixed
        } else if neg {
            -m
        } else {
            m
        };
        let v = prev + d;
        if !(0 <= v <= u64::MAX) {
            None
        } else {
            match delta_tail(b, pos + width, width, neg, fixed, v, (count - 1) as nat) {
                Some(r) => Some(seq![v as u64] + r),
                None => None,
            }
        }
    }
}

/// Bytes that `n` values of `width` bits fill, the last byte padded.
pub open spec fn packed_bytes(n: nat, width: nat) -> nat {
    (n * width + 7) / 8
}

/// The values of the run that starts at position `i` of an unsigned ORC
/// integer run-length stream (version 2), and the position past it. The
/// top two bits of its first byte select its kind: 0, a value of 1 to 8
/// big-endian bytes repeated 3 to 10 times; 1, 1 to 512 values bit-packed
/// at a coded width; 3, a base, a signed step and bit-packed step
/// magnitudes. Runs of kind 2 (patched base) are not decoded here: they
/// give `None`, as a cut-short run does.
pub open spec fn run_at(b: Seq<u8>, i: nat) -> Option<(Seq<u64>, nat)> {
    let h = b[i as int];
    let kind = h / 64;
    if kind == 0 {
        let w = ((h / 8) % 8 + 1) as nat;
        let n = (h % 8 + 3) as nat;
        if i + 1 + w > b.len() {
            None
        } else {
            let v = packed_value(b, 8 * (i + 1) as int, 8 * w) as u64;
            Some((Seq::new(n, |_j: int| v), i + 1 + w))
        }
    } else if kind == 2 || i + 2 > b.len() {
        None
    } else {
        let n = ((h % 2) as nat) * 256 + b[i + 1int] as nat + 1;
        let code = (h / 2) % 32;
        if kind == 1 {
            let w = width_of(code);
            let end = i + 2 + packed_bytes(n, w);
            if end > b.len() {
                None
            } else {
                Some(
                    (
                        Seq::new(n, |j: int| packed_value(b, 8 * (i + 2) as int + j * w, w) as u64),
                        end,
                    ),
                )
            }
        } else {
            let w = if code == 0 {
                0
            } else {
                width_of(code)
            };
            match varint_from(b, i + 2, 0, 1) {
                Varint::Value(base, p1) => match varint_from(b, p1, 0, 1) {
                    Varint::Value(u, p2) => {
                        let delta = zigzag(u);
                        if n == 1 {
                            Some((seq![base], p2))
                        } else {
                            let second = base + delta;
                            let end = p2 + packed_bytes((n - 2) as nat, w);
                            if !(0 <= second <= u64::MAX) || end > b.len() {
                                None
                            } else {
                                match delta_tail(
                                    b,
                                    8 * p2 as int,
                                    w,
                                    delta < 0,
                                    delta,
                                    second,
                                    (n - 2) as nat,
                                ) {
                                    Some(t) => Some((seq![base, second as u64] + t, end)),
                                    None => None,
                                }
                            }
                        }
                    },
                    _ => None,
                },
                _ => None,
            }
        }
    }
}

/// The values of an unsigned ORC integer run-length stream (version 2) from
/// position `i`: its runs, one after the other.
pub open spec fn rle_v2_from(b: Seq<u8>, i: nat) -> Option<Seq<u64>>
    decreases b.len() - i,
{
    if i >= b.len() {
        Some(Seq::empty())
    } else {
        match run_at(b, i) {
            Some((s, e)) => if i < e <= b.len() {
                match rle_v2_from(b, e) {
                    Some(r) => Some(s + r),
                    None => None,
                }
            } else {
                None
            },
            None => None,
        }
    }
}

pub open spec fn prepend_tail(got: Seq<u64>, r: Option<Seq<u64>>) -> Option<Seq<u64>> {
    match r {
        Some(t) => Some(got + t),
        None => None,
    }
}

fn short_repeat_run(b: &[u8], pos: usize) -> (r: Result<(Vec<u64>, usize), OrcError>)
    requires
        pos < b@.len(),
        b@[pos as int] / 64 == 0,
        8 * b@.len() <= usize::MAX,
    ensures
        r is Err <==> run_at(b@, pos as nat) is None,
        r matches Ok((v, e)) ==> run_at(b@, pos as nat) == Some((v@, e as nat)) && pos < e
            <= b@.len(),
{
    let h = b[pos];
    let w: usize = ((h / 8) % 8 + 1) as usize;
    let n: usize = (h % 8 + 3) as usize;
    if b.len() - pos - 1 < w {
        return Err(out_of_spec("repeated value cut short"));
    }
    let v = read_packed(b, (pos + 1) * 8, w * 8);
    let mut out: Vec<u64> = Vec::new();
    let mut j: usize = 0;
    while j < n
        invariant
            j <= n,
            out@ == Seq::new(j as nat, |_k: int| v),
        decreases n - j,
    {
        out.push(v);
        j = j + 1;
        assert(out@ =~= Seq::new(j as nat, |_k: int| v));
    }
    Ok((out, pos + 1 + w))
}

fn direct_run(b: &[u8], pos: usize) -> (r: Result<(Vec<u64>, usize), OrcError>)
    requires
        pos < b@.len(),
        b@[pos as int] / 64 == 1,
        8 * b@.len() <= usize::MAX,
    ensures
        r is Err <==> run_at(b@, pos as nat) is None,
        r matches Ok((v, e)) ==> run_at(b@, pos as nat) == Some((v@, e as nat)) && pos < e
            <= b@.len(),
{
    let h = b[pos];
    if b.len() - pos < 2 {
        return Err(out_of_spec("integer run header cut short"));
    }
    let n: usize = (h % 2) as usize * 256 + b[pos + 1] as usize + 1;
    let w = bit_width((h / 2) % 32);
    proof {
        assert(n * w <= 512 * 64) by (nonlinear_arith)
            requires
                n <= 512,
                w <= 64,
        ;
    }
    let nbytes = (n * w + 7) / 8;
    if b.len() - pos - 2 < nbytes {
        return Err(out_of_spec("bit-packed values cut short"));
    }
    let start = (pos + 2) * 8;
    let ghost f = |j: int| packed_value(b@, 8 * (pos + 2) as int + j * w, w as nat) as u64;
    let mut out: Vec<u64> = Vec::new();
    let mut bp: usize = start;
    let mut j: usize = 0;
    while j < n
        invariant
            8 * b@.len() <= usize::MAX,
            1 <= w <= 64,
            n <= 512,
            pos + 2 + nbytes <= b@.len(),
            nbytes == (n * w + 7) / 8,
            j <= n,
            bp == start + j * w,
            start == (pos + 2) * 8,
            f == (|j: int| packed_value(b@, 8 * (pos + 2) as int + j * w, w as nat) as u64),
            out@ == Seq::new(j as nat, f),
        decreases n - j,
    {
        proof {
            assert((j + 1) * w <= n * w) by (nonlinear_arith)
                requires
                    j < n,
            ;
            assert(j * w + w == (j + 1) * w) by (nonlinear_arith);
            assert(n * w <= 8 * nbytes);
        }
        let v = read_packed(b, bp, w);
        out.push(v);
        bp = bp + w;
        j = j + 1;
        assert(out@ =~= Seq::new(j as nat, f));
    }
    Ok((out, pos + 2 + nbytes))
}

fn delta_run(b: &[u8], pos: usize) -> (r: Result<(Vec<u64>, usize), OrcError>)
    requires
        pos < b@.len(),
        b@[pos as int] / 64 == 3,
        8 * b@.len() <= usize::MAX,
    ensures
        r is Err <==> run_at(b@, pos as nat) is None,
        r matches Ok((v, e)) ==> run_at(b@, pos as nat) == Some((v@, e as nat)) && pos < e
            <= b@.len(),
{
    let h = b[pos];
    if b.len() - pos < 2 {
        return Err(out_of_spec("integer run header cut short"));
    }
    let n: usize = (h % 2) as usize * 256 + b[pos + 1] as usize + 1;
    let code = (h / 2) % 32;
    let w: usize = if code == 0 {
        0
    } else {
        bit_width(code)
    };
    proof {
        lemma_varint_end(b@, (pos + 2) as nat, 0, 1);
    }
    let (base, p1) = match read_varint(b, pos + 2) {
        Ok(x) => x,
        Err(e) => return Err(e),
    };
    proof {
        lemma_varint_end(b@, p1 as nat, 0, 1);
    }
    let (u, p2) = match read_varint(b, p1) {
        Ok(x) => x,
        Err(e) => return Err(e),
    };
    let delta = zigzag_decode(u);
    let mut out: Vec<u64> = Vec::new();
    out.push(base);
    if n == 1 {
        return Ok((out, p2));
    }
    let second: i128 = base as i128 + delta as i128;
    if second < 0 || second > u64::MAX as i128 {
        return Err(OrcError::VarintTooLarge);
    }
    let count: usize = n - 2;
    proof {
        assert(count * w <= 512 * 64) by (nonlinear_arith)
            requires
                count <= 512,
                w <= 64,
        ;
    }
    let nbytes = (count * w + 7) / 8;
    if b.len() - p2 < nbytes {
        return Err(out_of_spec("bit-packed steps cut short"));
    }
    let end = p2 + nbytes;
    let neg = delta < 0;
    let ghost tail0 = delta_tail(
        b@,
        8 * p2 as int,
        w as nat,
        neg,
        delta as int,
        second as int,
        count as nat,
    );
    proof {
        assert(run_at(b@, pos as nat) == match tail0 {
            Some(t) => Some((seq![base, second as u64] + t, end as nat)),
            None => None,
        });
    }
    out.push(second as u64);
    let ghost head = seq![base, second as u64];
    assert(out@ =~= head);
    let ghost mut got: Seq<u64> = Seq::empty();
    assert(got + Seq::<u64>::empty() =~= got);
    let mut prev: i128 = second;
    let mut bp: usize = p2 * 8;
    let mut k: usize = 0;
    while k < count
        invariant
            8 * b@.len() <= usize::MAX,
            w <= 64,
            count <= 510,
            end == p2 + nbytes,
            end <= b@.len(),
            nbytes == (count * w + 7) / 8,
            k <= count,
            bp == 8 * p2 + k * w,
            0 <= prev <= u64::MAX,
            out@ == head + got,
            head == seq![base, second as u64],
            run_at(b@, pos as nat) == match tail0 {
                Some(t) => Some((seq![base, second as u64] + t, end as nat)),
                None => None,
            },
            tail0 == prepend_tail(
                got,
                delta_tail(
                    b@,
                    bp as int,
                    w as nat,
                    neg,
                    delta as int,
                    prev as int,
                    (count - k) as nat,
                ),
            ),
        decreases count - k,
    {
        proof {
            assert((k + 1) * w <= count * w) by (nonlinear_arith)
                requires
                    k < count,
            ;
            assert(k * w + w == (k + 1) * w) by (nonlinear_arith);
            assert(count * w <= 8 * nbytes);
        }
        let d: i128 = if w == 0 {
            delta as i128
        } else {
            let m = read_packed(b, bp, w) as i128;
            if neg {
                -m
            } else {
                m
            }
        };
        let v: i128 = prev + d;
        if v < 0 || v > u64::MAX as i128 {
            proof {
                assert(tail0 is None);
            }
            return Err(OrcError::VarintTooLarge);
        }
        out.push(v as u64);
        proof {
            let rest = delta_tail(
                b@,
                (bp + w) as int,
                w as nat,
                neg,
                delta as int,
                v as int,
                (count - k - 1) as nat,
            );
            if let Some(t) = rest {
                assert(got + (seq![v as u64] + t) =~= got.push(v as u64) + t);
            }
            got = got.push(v as u64);
        }
        prev = v;
        bp = bp + w;
        k = k + 1;
    }
    proof {
        assert(got + Seq::<u64>::empty() =~= got);
        assert(head + got =~= seq![base, second as u64] + got);
    }
    Ok((out, end))
}

/// Decodes an unsigned ORC integer run-length stream (version 2), as
/// lengths are written by the `DIRECT_V2` encoding. Fails on a cut-short
/// run, on a value that leaves the unsigned 64-bit range, and on a patched
/// base run, which this decoder does not handle.
pub fn decode_unsigned_rle_v2(b: &[u8]) -> (r: Result<Vec<u64>, OrcError>)
    requires
        8 * b@.len() <= usize::MAX,
    ensures
        r is Err <==> rle_v2_from(b@, 0) is None,
        r matches Ok(v) ==> rle_v2_from(b@, 0) == Some(v@),
{
    let mut out: Vec<u64> = Vec::new();
    let mut pos: usize = 0;
    let blen = b.len();
    assert(out@ + Seq::<u64>::empty() =~= out@);
    while pos < b.len()
        invariant
            blen == b@.len(),
            8 * b@.len() <= usize::MAX,
            pos <= b@.len(),
            rle_v2_from(b@, 0) == prepend_values(out@, rle_v2_from(b@, pos as nat)),
        decreases b@.len() - pos,
    {
        let kind = b[pos] / 64;
        let run = if kind == 0 {
            short_repeat_run(b, pos)
        } else if kind == 1 {
            direct_run(b, pos)
        } else if kind == 3 {
            delta_run(b, pos)
        } else {
            return Err(
                OrcError::UnsupportedTypeVariant { msg: "patched base integer runs".to_owned() },
            );
        };
        let (values, end) = match run {
            Ok(x) => x,
            Err(e) => return Err(e),
        };
        let ghost before = out@;
        let mut j: usize = 0;
        while j < values.len()
            invariant
                j <= values@.len(),
                out@ == before + values@.take(j as int),
            decreases values@.len() - j,
        {
            out.push(values[j]);
            j = j + 1;
            assert(out@ =~= before + values@.take(j as int));
        }
        proof {
            assert(values@.take(values@.len() as int) =~= values@);
            if let Some(t) = rle_v2_from(b@, end as nat) {
                assert(before + (values@ + t) =~= before + values@ + t);
            }
        }
        pos = end;
    }
    proof {
        assert(out@ + Seq::<u64>::empty() =~= out@);
    }
    Ok(out)
}

/// The values of an unsigned integer stream under a column's encoding:
/// version 1 run-length encoding for `DIRECT` and `DICTIONARY`, version 2
/// for their `_V2` forms.
pub open spec fn unsigned_rle(kind: ColumnEncodingKind, b: Seq<u8>) -> Option<Seq<u64>> {
    match kind {
        ColumnEncodingKind::Direct | ColumnEncodingKind::Dictionary => rle_v1_from(b, 0),
        _ => rle_v2_from(b, 0),
    }
}

/// Decodes an unsigned integer stream with the run-length encoding that
/// the column's encoding kind selects.
pub fn decode_unsigned_rle(kind: ColumnEncodingKind, b: &[u8]) -> (r: Result<Vec<u64>, OrcError>)
    requires
        8 * b@.len() <= usize::MAX,
    ensures
        r is Err <==> unsigned_rle(kind, b@) is None,
        r matches Ok(v) ==> unsigned_rle(kind, b@) == Some(v@),
{
    match kind {
        ColumnEncodingKind::Direct | ColumnEncodingKind::Dictionary => decode_unsigned_rle_v1(b),
        _ => decode_unsigned_rle_v2(b),
    }
}

} // verus!
