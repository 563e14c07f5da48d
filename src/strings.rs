use vstd::prelude::*;

use crate::error::{out_of_spec, OrcError};
use crate::list::{lemma_sum_monotone, lemma_sum_step, offset_at, sum};

verus! {

/// Entry `i` of a byte stream cut by `lengths`: the bytes between the sum
/// of the lengths before it and the sum up to and including its own.
pub open spec fn entry(bytes: Seq<u8>, lengths: Seq<u64>, i: int) -> Seq<u8> {
    bytes.subrange(offset_at(lengths, i), offset_at(lengths, i + 1))
}

/// Copies `len` bytes of `bytes` from `start`.
fn copy_range(bytes: &[u8], start: usize, len: usize) -> (r: Vec<u8>)
    requires
        start + len <= bytes@.len(),
    ensures
        r@ == bytes@.subrange(start as int, start + len),
{
    let mut out: Vec<u8> = Vec::new();
    let mut i: usize = 0;
    let blen = bytes.len();
    while i < len
        invariant
            blen == bytes@.len(),
            i <= len,
            start + len <= bytes@.len(),
            out@ == bytes@.subrange(start as int, start + i),
        decreases len - i,
    {
        out.push(bytes[start + i]);
        i = i + 1;
        assert(out@ =~= bytes@.subrange(start as int, start + i));
    }
    out
}

/// Cuts the bytes of a string, binary or dictionary stream into entries by
/// their lengths, in order. Fails where the lengths run past the bytes.
pub fn split_by_lengths(bytes: &[u8], lengths: &[u64]) -> (r: Result<Vec<Vec<u8>>, OrcError>)
    ensures
        r is Err <==> sum(lengths@) > bytes@.len(),
        r matches Ok(v) ==> v@.len() == lengths@.len() && forall|i: int|
            0 <= i < lengths@.len() ==> #[trigger] v@[i]@ == entry(bytes@, lengths@, i),
{
    let mut out: Vec<Vec<u8>> = Vec::new();
    let mut start: usize = 0;
    let mut i: usize = 0;
    let blen = bytes.len();
    proof {
        assert(lengths@.take(0) =~= Seq::<u64>::empty());
    }
    while i < lengths.len()
        invariant
            blen == bytes@.len(),
            i <= lengths@.len(),
            start == offset_at(lengths@, i as int),
            start <= bytes@.len(),
            out@.len() == i,
            forall|j: int| 0 <= j < i ==> #[trigger] out@[j]@ == entry(bytes@, lengths@, j),
        decreases lengths@.len() - i,
    {
        proof {
            lemma_sum_step(lengths@, i as int);
        }
        let len = lengths[i];
        if len > (bytes.len() - start) as u64 {
            proof {
                lemma_sum_monotone(lengths@, i as int + 1, lengths@.len() as int);
                assert(lengths@.take(lengths@.len() as int) =~= lengths@);
            }
            return Err(out_of_spec("string lengths run past the data stream"));
        }
        let e = copy_range(bytes, start, len as usize);
        out.push(e);
        start = start + len as usize;
        i = i + 1;
    }
    assert(lengths@.take(lengths@.len() as int) =~= lengths@);
    Ok(out)
}

/// Looks up dictionary entries by index, in order. Fails with
/// `OutOfBound`, naming the position of the first index that is not below
/// the dictionary's size.
pub fn lookup_dictionary(dictionary: &Vec<Vec<u8>>, indices: &[u64]) -> (r: Result<
    Vec<Vec<u8>>,
    OrcError,
>)
    ensures
        r is Err <==> exists|j: int|
            0 <= j < indices@.len() && #[trigger] indices@[j] >= dictionary@.len(),
        r matches Err(e) ==> e is OutOfBound,
        r matches Err(OrcError::OutOfBound { index }) ==> index < indices@.len()
            && indices@[index as int] >= dictionary@.len(),
        r matches Ok(v) ==> v@.len() == indices@.len() && forall|j: int|
            0 <= j < indices@.len() ==> #[trigger] v@[j]@ == dictionary@[indices@[j] as int]@,
{
    let mut out: Vec<Vec<u8>> = Vec::new();
    let mut j: usize = 0;
    while j < indices.len()
        invariant
            j <= indices@.len(),
            out@.len() == j,
            forall|k: int| 0 <= k < j ==> #[trigger] indices@[k] < dictionary@.len(),
            forall|k: int|
                0 <= k < j ==> #[trigger] out@[k]@ == dictionary@[indices@[k] as int]@,
        decreases indices@.len() - j,
    {
        let index = indices[j];
        if index >= dictionary.len() as u64 {
            return Err(OrcError::OutOfBound { index: j });
        }
        let entry = &dictionary[index as usize];
        let copy = copy_range(entry.as_slice(), 0, entry.len());
        assert(copy@ =~= entry@);
        out.push(copy);
        j = j + 1;
    }
    Ok(out)
}

} // verus!
