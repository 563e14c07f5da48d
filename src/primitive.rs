use vstd::prelude::*;

use crate::error::{out_of_spec, OrcError};
use crate::present::{
    count_present, count_true, derive_present_vec, effective_present, lemma_count_true_monotone,
    lemma_count_true_step, own_demand, present_rows, slice_view, stream_view, vec_view,
};
use crate::rle::{
    byte_rle, decode_present_stream, decode_signed_rle_v1, first_rows, signed_rle_v1_from,
    unpack_bits,
};
use crate::stream::{BoolStream, I64Stream};

verus! {

/// One entry per row of a batch: the next value at each present row, in
/// order, and `None` at each null row.
pub open spec fn fill_nulls(vals: Seq<i64>, present: Option<Seq<bool>>, n: nat) -> Seq<Option<i64>> {
    match present {
        None => Seq::new(n, |i: int| Some(vals[i])),
        Some(p) => Seq::new(
            p.len(),
            |i: int|
                if p[i] {
                    Some(vals[count_true(p.take(i)) as int])
                } else {
                    None
                },
        ),
    }
}

/// The validity mask of a decoded batch: which entries hold a value.
pub open spec fn validity(v: Seq<Option<i64>>) -> Seq<bool> {
    v.map_values(|x: Option<i64>| x is Some)
}

/// The set bits of a batch's validity mask are as many as the values the
/// batch reads from the value stream: one per present row.
pub proof fn lemma_validity_counts_reads(vals: Seq<i64>, present: Option<Seq<bool>>, n: nat)
    requires
        present matches Some(p) ==> p.len() == n,
    ensures
        count_true(validity(fill_nulls(vals, present, n))) == present_rows(present, n),
        validity(fill_nulls(vals, present, n)).len() == n,
{
    let m = validity(fill_nulls(vals, present, n));
    match present {
        Some(p) => {
            assert(m =~= p);
        },
        None => {
            lemma_count_all_true(m);
        },
    }
}

proof fn lemma_count_all_true(s: Seq<bool>)
    requires
        forall|i: int| 0 <= i < s.len() ==> #[trigger] s[i],
    ensures
        count_true(s) == s.len(),
    decreases s.len(),
{
    if s.len() > 0 {
        lemma_count_all_true(s.drop_last());
    }
}

/// Decoder state of an integer column (byte, short, int, long, date): its
/// own presence stream, if it has one, and its decoded values.
#[derive(Debug)]
pub struct Int64ArrayDecoder {
    pub present: Option<BoolStream>,
    pub values: I64Stream,
}

/// The presence vector that a batch of `n` rows of `d` gets under `parent`.
pub open spec fn int_present(d: Int64ArrayDecoder, parent: Option<Seq<bool>>, n: nat) -> Option<
    Seq<bool>,
> {
    effective_present(stream_view(d.present), parent, n)
}

/// A batch of `n` rows of `d` fails: the presence stream or the values run
/// out.
pub open spec fn int_batch_fails(d: Int64ArrayDecoder, parent: Option<Seq<bool>>, n: nat) -> bool {
    ||| (d.present matches Some(s) && s.rest().len() < own_demand(parent, n))
    ||| d.values.rest().len() < present_rows(int_present(d, parent, n), n)
}

impl Int64ArrayDecoder {
    pub open spec fn wf(&self) -> bool {
        &&& (self.present matches Some(s) ==> s.wf())
        &&& self.values.wf()
    }

    /// Builds the decoder of a stripe of `rows` rows from the bytes of its
    /// presence stream, if it has one, and of its data stream, written with
    /// the signed version 1 integer run-length encoding.
    pub fn from_streams(present: Option<&[u8]>, data: &[u8], rows: usize) -> (r: Result<
        Int64ArrayDecoder,
        OrcError,
    >)
        ensures
            r is Err <==> (present matches Some(p) && byte_rle(p@) is None) || signed_rle_v1_from(
                data@,
                0,
            ) is None,
            r matches Ok(d) ==> {
                &&& d.wf()
                &&& d.values.rest() == signed_rle_v1_from(data@, 0)->Some_0
                &&& (present is None ==> d.present is None)
                &&& (present matches Some(p) ==> d.present matches Some(s) && s.rest()
                    == first_rows(unpack_bits(byte_rle(p@)->Some_0), rows as nat))
            },
    {
        let present_stream = match present {
            None => None,
            Some(p) => match decode_present_stream(p, rows) {
                Ok(s) => Some(s),
                Err(e) => return Err(e),
            },
        };
        let values = match decode_signed_rle_v1(data) {
            Ok(v) => v,
            Err(e) => return Err(e),
        };
        Ok(Int64ArrayDecoder { present: present_stream, values: I64Stream::new(values) })
    }

    /// Decodes the next `batch_size` rows: exactly `batch_size` entries,
    /// null where the derived presence says so, one value read per present
    /// row.
    pub fn next_batch(&mut self, batch_size: usize, parent_present: Option<&[bool]>) -> (r: Result<
        Vec<Option<i64>>,
        OrcError,
    >)
        requires
            old(self).wf(),
            parent_present matches Some(p) ==> p@.len() == batch_size,
        ensures
            final(self).wf(),
            r is Err <==> int_batch_fails(*old(self), slice_view(parent_present), batch_size as nat),
            r matches Ok(v) ==> {
                let parent = slice_view(parent_present);
                let n = batch_size as nat;
                let p = int_present(*old(self), parent, n);
                let k = present_rows(p, n) as int;
                &&& v@ == fill_nulls(old(self).values.rest(), p, n)
                &&& v@.len() == n
                &&& final(self).values.rest() == old(self).values.rest().skip(k)
                &&& (old(self).present matches Some(s) ==> final(self).present->Some_0.rest()
                    == s.rest().skip(own_demand(parent, n) as int))
            },
    {
        let present = match derive_present_vec(&mut self.present, parent_present, batch_size) {
            Ok(p) => p,
            Err(e) => return Err(e),
        };
        let needed = match &present {
            Some(v) => count_present(v.as_slice()),
            None => batch_size,
        };
        if self.values.remaining() < needed {
            return Err(out_of_spec("fewer values than present rows"));
        }
        let ghost vals = self.values.rest();
        let ghost p = vec_view(present);
        let mut out: Vec<Option<i64>> = Vec::new();
        match &present {
            None => {
                let mut i: usize = 0;
                while i < batch_size
                    invariant
                        self.values.wf(),
                        vals == self.values.rest(),
                        self.values.pos + batch_size <= self.values.values.len(),
                        i <= batch_size,
                        out@ =~= fill_nulls(vals, p, batch_size as nat).take(i as int),
                        p is None,
                    decreases batch_size - i,
                {
                    out.push(Some(self.values.values[self.values.pos + i]));
                    i = i + 1;
                }
                self.values.pos = self.values.pos + batch_size;
            },
            Some(q) => {
                let mut used: usize = 0;
                let mut i: usize = 0;
                while i < q.len()
                    invariant
                        self.values.wf(),
                        vals == self.values.rest(),
                        self.values.pos + needed <= self.values.values.len(),
                        needed == count_true(q@),
                        p == Some(q@),
                        i <= q@.len(),
                        used == count_true(q@.take(i as int)),
                        used <= needed,
                        out@ =~= fill_nulls(vals, p, batch_size as nat).take(i as int),
                    decreases q@.len() - i,
                {
                    proof {
                        lemma_count_true_step(q@, i as int);
                        lemma_count_true_monotone(q@, i as int + 1, q@.len() as int);
                        assert(q@.take(q@.len() as int) =~= q@);
                    }
                    if q[i] {
                        out.push(Some(self.values.values[self.values.pos + used]));
                        used = used + 1;
                    } else {
                        out.push(None);
                    }
                    i = i + 1;
                }
                self.values.pos = self.values.pos + needed;
            },
        }
        assert(self.values.rest() =~= vals.skip(needed as int));
        Ok(out)
    }
}

} // verus!
