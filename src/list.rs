use vstd::prelude::*;

use crate::error::{out_of_spec, OrcError};
use crate::present::{
    count_present, count_true, lemma_all_null_reads_nothing, lemma_count_true_concat,
    lemma_count_true_index, lemma_null_propagates, derive_present_vec, effective_present, lemma_count_true_monotone,
    lemma_count_true_step, own_demand, present_rows, slice_view, stream_view, vec_view,
};
use crate::column::ColumnEncodingKind;
use crate::rle::{byte_rle, decode_present_stream, first_rows, unpack_bits};
use crate::rle2::{decode_unsigned_rle, unsigned_rle};
use crate::stream::{BoolStream, U64Stream};

verus! {

/// The sum of a sequence of lengths.
pub open spec fn sum(s: Seq<u64>) -> int
    decreases s.len(),
{
    if s.len() == 0 {
        0
    } else {
        sum(s.drop_last()) + s.last()
    }
}

/// One length per row of a batch: the lengths of the present rows, in
/// order, with 0 at each null row.
pub open spec fn expand_lengths(lens: Seq<u64>, present: Option<Seq<bool>>) -> Seq<u64> {
    match present {
        None => lens,
        Some(p) => Seq::new(
            p.len(),
            |i: int|
                if p[i] {
                    lens[count_true(p.take(i)) as int]
                } else {
                    0u64
                },
        ),
    }
}

/// Entry `i` of the offset buffer built from `lens`.
pub open spec fn offset_at(lens: Seq<u64>, i: int) -> int {
    sum(lens.take(i))
}

pub proof fn lemma_sum_step(s: Seq<u64>, i: int)
    requires
        0 <= i < s.len(),
    ensures
        sum(s.take(i + 1)) == sum(s.take(i)) + s[i],
{
    assert(s.take(i + 1).drop_last() =~= s.take(i));
}

pub proof fn lemma_sum_monotone(s: Seq<u64>, i: int, j: int)
    requires
        0 <= i <= j <= s.len(),
    ensures
        0 <= sum(s.take(i)) <= sum(s.take(j)),
    decreases j - i,
{
    if i < j {
        lemma_sum_monotone(s, i, j - 1);
        lemma_sum_step(s, j - 1);
    } else {
        lemma_sum_nonneg(s.take(i));
    }
}

pub proof fn lemma_sum_nonneg(s: Seq<u64>)
    ensures
        0 <= sum(s),
    decreases s.len(),
{
    if s.len() > 0 {
        lemma_sum_nonneg(s.drop_last());
    }
}

/// Null rows add nothing: the lengths expanded over a presence vector sum,
/// up to any row, to the sum of the lengths of the present rows before it.
pub proof fn lemma_sum_expand_prefix(lens: Seq<u64>, p: Seq<bool>, i: int)
    requires
        0 <= i <= p.len(),
        count_true(p) <= lens.len(),
    ensures
        sum(expand_lengths(lens, Some(p)).take(i)) == sum(lens.take(count_true(p.take(i)) as int)),
    decreases i,
{
    let e = expand_lengths(lens, Some(p));
    if i == 0 {
        assert(e.take(0) =~= Seq::<u64>::empty());
        assert(p.take(0) =~= Seq::<bool>::empty());
        assert(lens.take(0) =~= Seq::<u64>::empty());
    } else {
        lemma_sum_expand_prefix(lens, p, i - 1);
        lemma_sum_step(e, i - 1);
        lemma_count_true_step(p, i - 1);
        if p[i - 1] {
            lemma_count_true_monotone(p, i, p.len() as int);
            assert(p.take(p.len() as int) =~= p);
            lemma_sum_step(lens, count_true(p.take(i - 1)) as int);
        }
    }
}

/// Expanding lengths for two consecutive batches gives what one batch
/// covering both rows gives: the second batch reads the lengths where the
/// first left them.
pub proof fn lemma_expand_split(lens: Seq<u64>, first: Seq<bool>, second: Seq<bool>)
    requires
        count_true(first) + count_true(second) <= lens.len(),
    ensures
        expand_lengths(lens, Some(first + second)) == expand_lengths(lens, Some(first)) + expand_lengths(
            lens.skip(count_true(first) as int),
            Some(second),
        ),
{
    let p = first + second;
    let k = count_true(first);
    let a = expand_lengths(lens, Some(p));
    let b = expand_lengths(lens, Some(first)) + expand_lengths(lens.skip(k as int), Some(second));
    assert forall|i: int| 0 <= i < p.len() implies #[trigger] a[i] == b[i] by {
        if i < first.len() {
            assert(p.take(i) =~= first.take(i));
        } else {
            let j = i - first.len();
            assert(p.take(i) =~= first + second.take(j));
            lemma_count_true_concat(first, second.take(j));
            if second[j] {
                lemma_count_true_index(second, j);
            }
        }
    }
    assert(a =~= b);
}

/// The offsets of a batch whose presence is `p` and whose lengths, one
/// per present row, are read from `lens`: one per row and one more,
/// starting at 0; the last exceeds the first by the sum of the lengths
/// read, which is the number of child rows; a null row, the last one
/// included, adds nothing to them.
pub proof fn lemma_list_offsets_laws(lens: Seq<u64>, p: Seq<bool>)
    requires
        count_true(p) <= lens.len(),
    ensures
        ({
            let k = count_true(p) as int;
            let e = expand_lengths(lens.take(k), Some(p));
            &&& e.len() == p.len()
            &&& offset_at(e, 0) == 0
            &&& offset_at(e, p.len() as int) - offset_at(e, 0) == sum(lens.take(k))
            &&& forall|i: int|
                0 <= i < p.len() && !p[i] ==> #[trigger] offset_at(e, i + 1) == offset_at(e, i)
        }),
{
    let k = count_true(p) as int;
    let l = lens.take(k);
    let e = expand_lengths(l, Some(p));
    lemma_sum_expand_prefix(l, p, p.len() as int);
    assert(p.take(p.len() as int) =~= p);
    assert(l.take(k) =~= l);
    assert(e.take(e.len() as int) =~= e);
    assert(e.take(0) =~= Seq::<u64>::empty());
    assert forall|i: int| 0 <= i < p.len() && !p[i] implies #[trigger] offset_at(e, i + 1)
        == offset_at(e, i) by {
        lemma_sum_step(e, i);
    }
}

/// Two consecutive batches of `n1` and `n2` rows of a list column with its
/// own presence `own` and lengths `lens` give, row for row, the validity
/// and the lengths that one batch of `n1 + n2` rows gives; the second
/// batch reads presence and lengths where the first left them.
pub proof fn lemma_list_batches_split(own: Seq<bool>, lens: Seq<u64>, n1: nat, n2: nat)
    requires
        n1 + n2 <= own.len(),
        count_true(own.take((n1 + n2) as int)) <= lens.len(),
    ensures
        ({
            let whole = own.take((n1 + n2) as int);
            let first = own.take(n1 as int);
            let second = own.skip(n1 as int).take(n2 as int);
            let k1 = count_true(first) as int;
            let k2 = count_true(second) as int;
            &&& whole == first + second
            &&& k1 + k2 == count_true(whole)
            &&& expand_lengths(lens.take(k1 + k2), Some(whole)) == expand_lengths(
                lens.take(k1),
                Some(first),
            ) + expand_lengths(lens.skip(k1).take(k2), Some(second))
        }),
        lens.take((n1 + n2) as int) == lens.take(n1 as int) + lens.skip(n1 as int).take(n2 as int) || lens.len()
            < n1 + n2,
{
    let whole = own.take((n1 + n2) as int);
    let first = own.take(n1 as int);
    let second = own.skip(n1 as int).take(n2 as int);
    assert(whole =~= first + second);
    lemma_count_true_concat(first, second);
    let k1 = count_true(first) as int;
    let k2 = count_true(second) as int;
    let l = lens.take(k1 + k2);
    lemma_expand_split(l, first, second);
    let a = expand_lengths(l, Some(first));
    let b = expand_lengths(lens.take(k1), Some(first));
    assert forall|i: int| 0 <= i < first.len() implies #[trigger] a[i] == b[i] by {
        if first[i] {
            lemma_count_true_index(first, i);
        }
    }
    assert(a =~= b);
    let c = expand_lengths(l.skip(k1), Some(second));
    let d = expand_lengths(lens.skip(k1).take(k2), Some(second));
    assert forall|i: int| 0 <= i < second.len() implies #[trigger] c[i] == d[i] by {
        if second[i] {
            lemma_count_true_index(second, i);
        }
    }
    assert(c =~= d);
    if lens.len() >= n1 + n2 {
        assert(lens.take((n1 + n2) as int) =~= lens.take(n1 as int) + lens.skip(n1 as int).take(n2 as int));
    }
}

/// A list or map column whose parent rows are all null reads neither
/// presence nor lengths, and so asks its child for no rows.
pub proof fn lemma_all_null_list_reads_nothing(d: ListArrayDecoder, parent: Seq<bool>)
    requires
        forall|i: int| 0 <= i < parent.len() ==> !#[trigger] parent[i],
    ensures
        own_demand(Some(parent), parent.len()) == 0,
        list_demand(d, Some(parent), parent.len()) == 0,
{
    lemma_all_null_reads_nothing(parent);
    if let Some(s) = d.present {
        lemma_null_propagates(parent, s.rest());
    }
}

/// Expands `lengths`, one per present row, to one length per row of a
/// batch of `batch_size` rows, with 0 at each null row.
pub fn populate_lengths_with_nulls(
    lengths: Vec<u64>,
    batch_size: usize,
    present: &Option<Vec<bool>>,
) -> (r: Vec<u64>)
    requires
        present matches Some(p) ==> p@.len() == batch_size && count_true(p@) <= lengths@.len(),
    ensures
        r@ == expand_lengths(lengths@, vec_view(*present)),
{
    match present {
        None => lengths,
        Some(p) => {
            let mut out: Vec<u64> = Vec::new();
            let mut used: usize = 0;
            let mut i: usize = 0;
            while i < p.len()
                invariant
                    i <= p@.len(),
                    count_true(p@) <= lengths.len(),
                    used == count_true(p@.take(i as int)),
                    out@ =~= expand_lengths(lengths@, Some(p@)).take(i as int),
                decreases p@.len() - i,
            {
                proof {
                    lemma_count_true_step(p@, i as int);
                    lemma_count_true_monotone(p@, i as int + 1, p@.len() as int);
                    assert(p@.take(p@.len() as int) =~= p@);
                }
                if p[i] {
                    out.push(lengths[used]);
                    used = used + 1;
                } else {
                    out.push(0);
                }
                i = i + 1;
            }
            out
        },
    }
}

/// Builds the offset buffer of `lengths`: `lengths.len() + 1` entries
/// starting at 0, entry `i + 1` exceeding entry `i` by `lengths[i]`.
/// `None` where the total does not fit an `i32` offset.
pub fn offsets_from_lengths(lengths: &Vec<u64>) -> (r: Option<Vec<i32>>)
    ensures
        r is None <==> sum(lengths@) > i32::MAX,
        r matches Some(o) ==> o@.len() == lengths@.len() + 1 && forall|i: int|
            0 <= i <= lengths@.len() ==> #[trigger] o@[i] as int == offset_at(lengths@, i),
{
    let mut out: Vec<i32> = Vec::new();
    let mut total: u64 = 0;
    out.push(0);
    let mut i: usize = 0;
    proof {
        assert(lengths@.take(0) =~= Seq::<u64>::empty());
    }
    while i < lengths.len()
        invariant
            i <= lengths@.len(),
            total == sum(lengths@.take(i as int)),
            total <= i32::MAX,
            out@.len() == i + 1,
            forall|j: int| 0 <= j <= i ==> #[trigger] out@[j] as int == offset_at(lengths@, j),
        decreases lengths@.len() - i,
    {
        proof {
            lemma_sum_step(lengths@, i as int);
        }
        if lengths[i] > 2147483647u64 - total {
            proof {
                lemma_sum_monotone(lengths@, i as int + 1, lengths@.len() as int);
                assert(lengths@.take(lengths@.len() as int) =~= lengths@);
            }
            return None;
        }
        total = total + lengths[i];
        out.push(total as i32);
        i = i + 1;
    }
    assert(lengths@.take(lengths@.len() as int) =~= lengths@);
    Some(out)
}

/// What a list or map column yields for one batch: the offset buffer, the
/// validity mask (`None`: all rows present), and the number of child rows
/// that the child decoders must produce for it.
#[derive(Debug)]
pub struct ListBatch {
    pub offsets: Vec<i32>,
    pub nulls: Option<Vec<bool>>,
    pub child_rows: usize,
}

/// Decoder state of a list or map column: its own presence stream, if it
/// has one, and its stream of lengths. For a map, the key and the value
/// decoders are each asked for `child_rows` rows.
#[derive(Debug)]
pub struct ListArrayDecoder {
    pub present: Option<BoolStream>,
    pub lengths: U64Stream,
}

/// The presence vector that a batch of `n` rows of `d` gets under `parent`.
pub open spec fn list_present(d: ListArrayDecoder, parent: Option<Seq<bool>>, n: nat) -> Option<
    Seq<bool>,
> {
    effective_present(stream_view(d.present), parent, n)
}

/// The number of lengths that a batch of `n` rows of `d` reads.
pub open spec fn list_demand(d: ListArrayDecoder, parent: Option<Seq<bool>>, n: nat) -> nat {
    present_rows(list_present(d, parent, n), n)
}

/// A batch of `n` rows of `d` fails: the presence stream or the length
/// stream runs out, or the lengths sum past the largest `i32` offset.
pub open spec fn list_batch_fails(d: ListArrayDecoder, parent: Option<Seq<bool>>, n: nat) -> bool {
    let k = list_demand(d, parent, n) as int;
    ||| (d.present matches Some(s) && s.rest().len() < own_demand(parent, n))
    ||| d.lengths.rest().len() < k
    ||| sum(d.lengths.rest().take(k)) > i32::MAX
}

impl ListArrayDecoder {
    pub open spec fn wf(&self) -> bool {
        &&& (self.present matches Some(s) ==> s.wf())
        &&& self.lengths.wf()
    }

    pub fn new(present: Option<BoolStream>, lengths: U64Stream) -> (r: ListArrayDecoder)
        ensures
            r.present == present,
            r.lengths == lengths,
    {
        ListArrayDecoder { present, lengths }
    }

    /// Builds the decoder of a stripe of `rows` rows from the bytes of its
    /// presence stream, if it has one, and of its length stream, written
    /// with the integer run-length encoding that `encoding` selects.
    pub fn from_streams(
        present: Option<&[u8]>,
        lengths: &[u8],
        rows: usize,
        encoding: ColumnEncodingKind,
    ) -> (r: Result<ListArrayDecoder, OrcError>)
        requires
            8 * lengths@.len() <= usize::MAX,
        ensures
            r is Err <==> (present matches Some(p) && byte_rle(p@) is None) || unsigned_rle(
                encoding,
                lengths@,
            ) is None,
            r matches Ok(d) ==> {
                &&& d.wf()
                &&& d.lengths.rest() == unsigned_rle(encoding, lengths@)->Some_0
                &&& (present is None ==> d.present is None)
                &&& (present matches Some(p) ==> d.present matches Some(s) && s.rest()
                    == first_rows(unpack_bits(byte_rle(p@)->Some_0), rows as nat))
            },
    {
        let present_stream = match present {
            None => None,
            Some(p) => match decode_present_stream(p, rows) {
                Ok(s) => Some(s),
                Err(e) => return Err(e),
            },
        };
        let values = match decode_unsigned_rle(encoding, lengths) {
            Ok(v) => v,
            Err(e) => return Err(e),
        };
        Ok(ListArrayDecoder { present: present_stream, lengths: U64Stream::new(values) })
    }

    /// Decodes the next `batch_size` rows. The presence vector is derived
    /// from the column's own stream and the parent's mask; one length is
    /// read per present row; null rows get length 0. The child rows are
    /// dense: their number is the sum of the lengths read.
    pub fn next_batch(&mut self, batch_size: usize, parent_present: Option<&[bool]>) -> (r: Result<
        ListBatch,
        OrcError,
    >)
        requires
            old(self).wf(),
            parent_present matches Some(p) ==> p@.len() == batch_size,
        ensures
            final(self).wf(),
            r is Err <==> list_batch_fails(*old(self), slice_view(parent_present), batch_size as nat),
            r matches Ok(b) ==> {
                let parent = slice_view(parent_present);
                let n = batch_size as int;
                let p = list_present(*old(self), parent, n as nat);
                let k = list_demand(*old(self), parent, n as nat) as int;
                let lens = old(self).lengths.rest().take(k);
                let e = expand_lengths(lens, p);
                &&& vec_view(b.nulls) == p
                &&& b.child_rows == sum(lens)
                &&& b.offsets@.len() == n + 1
                &&& forall|i: int| 0 <= i <= n ==> #[trigger] b.offsets@[i] as int == offset_at(e, i)
                &&& b.offsets@[0] == 0
                &&& b.offsets@[n] - b.offsets@[0] == b.child_rows
                &&& forall|i: int|
                    0 <= i < n && (p matches Some(q) && !q[i]) ==> #[trigger] b.offsets@[i + 1]
                        == b.offsets@[i]
                &&& final(self).lengths.rest() == old(self).lengths.rest().skip(k)
                &&& (old(self).present matches Some(s) ==> final(self).present->Some_0.rest()
                    == s.rest().skip(own_demand(parent, n as nat) as int))
            },
    {
        let ghost parent = slice_view(parent_present);
        let present = match derive_present_vec(&mut self.present, parent_present, batch_size) {
            Ok(p) => p,
            Err(e) => return Err(e),
        };
        let ghost p = vec_view(present);
        let elements_to_fetch = match &present {
            Some(v) => count_present(v.as_slice()),
            None => batch_size,
        };
        let lengths = match self.lengths.take(elements_to_fetch) {
            Some(l) => l,
            None => return Err(out_of_spec("fewer lengths than present rows in list column")),
        };
        let ghost lens = lengths@;
        proof {
            if let Some(q) = p {
                assert(q.len() == batch_size);
                lemma_sum_expand_prefix(lens, q, q.len() as int);
                assert(q.take(q.len() as int) =~= q);
                assert(lens.take(lens.len() as int) =~= lens);
                assert(expand_lengths(lens, p).take(q.len() as int) =~= expand_lengths(lens, p));
            }
        }
        let expanded = populate_lengths_with_nulls(lengths, batch_size, &present);
        let offsets = match offsets_from_lengths(&expanded) {
            Some(o) => o,
            None => return Err(out_of_spec("list lengths overflow the offset buffer")),
        };
        proof {
            let e = expanded@;
            assert(e.len() == batch_size);
            assert(e.take(0) =~= Seq::<u64>::empty());
            assert(e.take(e.len() as int) =~= e);
            lemma_sum_nonneg(e);
            assert forall|i: int|
                0 <= i < batch_size && (p matches Some(q) && !q[i]) implies #[trigger] offsets@[i
                + 1] == offsets@[i] by {
                lemma_sum_step(e, i);
            }
        }
        let child_rows = offsets[batch_size] as usize;
        Ok(ListBatch { offsets, nulls: present, child_rows })
    }
}

} // verus!
