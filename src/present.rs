use vstd::prelude::*;

use crate::error::{out_of_spec, OrcError};
use crate::stream::BoolStream;

verus! {

/// The number of `true` entries of `s`.
pub open spec fn count_true(s: Seq<bool>) -> nat
    decreases s.len(),
{
    if s.len() == 0 {
        0
    } else {
        count_true(s.drop_last()) + if s.last() {
            1nat
        } else {
            0nat
        }
    }
}

/// Presence of a child column under a parent mask: row `i` is present when
/// the parent row is, and the child's own stream, read only at the rows the
/// parent has, says so.
pub open spec fn merged(parent: Seq<bool>, own: Seq<bool>) -> Seq<bool> {
    Seq::new(parent.len(), |i: int| parent[i] && own[count_true(parent.take(i)) as int])
}

/// The presence vector of a batch of `n` rows, from the column's own stream
/// (what is left of it) and the parent's mask; `None` means all present.
pub open spec fn effective_present(
    own: Option<Seq<bool>>,
    parent: Option<Seq<bool>>,
    n: nat,
) -> Option<Seq<bool>> {
    match own {
        None => parent,
        Some(o) => match parent {
            None => Some(o.take(n as int)),
            Some(p) => Some(merged(p, o)),
        },
    }
}

/// How many values of its own presence stream a column reads for a batch
/// of `n` rows under the parent's mask.
pub open spec fn own_demand(parent: Option<Seq<bool>>, n: nat) -> nat {
    match parent {
        None => n,
        Some(p) => count_true(p),
    }
}

/// The rows of a batch that hold a value: the `true` entries of the
/// presence vector, or all `n` rows where there is none.
pub open spec fn present_rows(present: Option<Seq<bool>>, n: nat) -> nat {
    match present {
        None => n,
        Some(p) => count_true(p),
    }
}

pub open spec fn slice_view(p: Option<&[bool]>) -> Option<Seq<bool>> {
    match p {
        None => None,
        Some(s) => Some(s@),
    }
}

pub open spec fn vec_view(p: Option<Vec<bool>>) -> Option<Seq<bool>> {
    match p {
        None => None,
        Some(v) => Some(v@),
    }
}

pub open spec fn stream_view(s: Option<BoolStream>) -> Option<Seq<bool>> {
    match s {
        None => None,
        Some(b) => Some(b.rest()),
    }
}

pub proof fn lemma_count_true_step(s: Seq<bool>, i: int)
    requires
        0 <= i < s.len(),
    ensures
        count_true(s.take(i + 1)) == count_true(s.take(i)) + if s[i] {
            1nat
        } else {
            0nat
        },
{
    assert(s.take(i + 1).drop_last() =~= s.take(i));
}

pub proof fn lemma_count_true_monotone(s: Seq<bool>, i: int, j: int)
    requires
        0 <= i <= j <= s.len(),
    ensures
        count_true(s.take(i)) <= count_true(s.take(j)),
    decreases j - i,
{
    if i < j {
        lemma_count_true_monotone(s, i, j - 1);
        lemma_count_true_step(s, j - 1);
    }
}

/// Every present row of `s` before the end is counted: at a `true` row `i`,
/// the rows before it hold fewer `true` entries than the whole sequence.
pub proof fn lemma_count_true_index(s: Seq<bool>, i: int)
    requires
        0 <= i < s.len(),
        s[i],
    ensures
        count_true(s.take(i)) < count_true(s),
{
    lemma_count_true_step(s, i);
    lemma_count_true_monotone(s, i + 1, s.len() as int);
    assert(s.take(s.len() as int) =~= s);
}

pub proof fn lemma_count_true_concat(a: Seq<bool>, b: Seq<bool>)
    ensures
        count_true(a + b) == count_true(a) + count_true(b),
    decreases b.len(),
{
    if b.len() == 0 {
        assert(a + b =~= a);
    } else {
        lemma_count_true_concat(a, b.drop_last());
        assert((a + b).drop_last() =~= a + b.drop_last());
    }
}

/// A row that is null in the parent is null in the child, and a child
/// column never has more present rows than its parent: nothing below a
/// null row is ever read.
pub proof fn lemma_null_propagates(parent: Seq<bool>, own: Seq<bool>)
    ensures
        forall|i: int| 0 <= i < parent.len() && !parent[i] ==> !#[trigger] merged(parent, own)[i],
        count_true(merged(parent, own)) <= count_true(parent),
    decreases parent.len(),
{
    if parent.len() > 0 {
        let q = parent.drop_last();
        lemma_null_propagates(q, own);
        assert(merged(parent, own).drop_last() =~= merged(q, own)) by {
            assert forall|i: int| 0 <= i < q.len() implies q.take(i) == parent.take(i) by {
                assert(q.take(i) =~= parent.take(i));
            }
        }
    }
}

/// A column whose parent rows are all null reads nothing of its own
/// presence stream.
pub proof fn lemma_all_null_reads_nothing(parent: Seq<bool>)
    requires
        forall|i: int| 0 <= i < parent.len() ==> !#[trigger] parent[i],
    ensures
        count_true(parent) == 0,
        own_demand(Some(parent), parent.len()) == 0,
    decreases parent.len(),
{
    if parent.len() > 0 {
        lemma_all_null_reads_nothing(parent.drop_last());
    }
}

/// Deriving presence for two consecutive batches gives what one batch
/// covering both rows gives: the second batch reads the own stream where
/// the first left it.
pub proof fn lemma_merged_split(first: Seq<bool>, second: Seq<bool>, own: Seq<bool>)
    requires
        count_true(first) + count_true(second) <= own.len(),
    ensures
        merged(first + second, own) == merged(first, own) + merged(second, own.skip(count_true(first) as int)),
{
    let p = first + second;
    let k = count_true(first);
    assert forall|i: int| 0 <= i < p.len() implies #[trigger] merged(p, own)[i] == (merged(first, own)
        + merged(second, own.skip(k as int)))[i] by {
        if i < first.len() {
            assert(p.take(i) =~= first.take(i));
        } else {
            let j = i - first.len();
            assert(p.take(i) =~= first + second.take(j));
            lemma_count_true_concat(first, second.take(j));
            if second[j] {
                lemma_count_true_index(second, j);
            }
        }
    }
    assert(merged(p, own) =~= merged(first, own) + merged(second, own.skip(k as int)));
}

/// The number of `true` entries of `present`.
pub fn count_present(present: &[bool]) -> (r: usize)
    ensures
        r == count_true(present@),
{
    let mut n: usize = 0;
    let mut i: usize = 0;
    while i < present.len()
        invariant
            i <= present@.len(),
            n == count_true(present@.take(i as int)),
            n <= i,
        decreases present@.len() - i,
    {
        proof {
            lemma_count_true_step(present@, i as int);
        }
        if present[i] {
            n = n + 1;
        }
        i = i + 1;
    }
    assert(present@.take(present@.len() as int) =~= present@);
    n
}

/// Copies a slice of booleans into a vector.
fn copy_mask(s: &[bool]) -> (r: Vec<bool>)
    ensures
        r@ == s@,
{
    let mut out: Vec<bool> = Vec::new();
    let mut i: usize = 0;
    while i < s.len()
        invariant
            i <= s@.len(),
            out@ == s@.take(i as int),
        decreases s@.len() - i,
    {
        out.push(s[i]);
        i = i + 1;
        assert(out@ =~= s@.take(i as int));
    }
    assert(out@ =~= s@);
    out
}

/// Derives the presence vector of a batch of `batch_size` rows from the
/// column's own presence stream, if it has one, and the parent's mask, if
/// there is one. Where both exist the own stream is read only at the rows
/// that the parent has; where neither does the result is `None`. Fails,
/// without reading, where the own stream holds fewer values than needed.
pub fn derive_present_vec(
    present: &mut Option<BoolStream>,
    parent_present: Option<&[bool]>,
    batch_size: usize,
) -> (r: Result<Option<Vec<bool>>, OrcError>)
    requires
        parent_present matches Some(p) ==> p@.len() == batch_size,
        *old(present) matches Some(s) ==> s.wf(),
    ensures
        (*final(present) is Some) == (*old(present) is Some),
        *final(present) matches Some(s) ==> s.wf(),
        r is Err <==> (*old(present) matches Some(s) && s.rest().len() < own_demand(
            slice_view(parent_present),
            batch_size as nat,
        )),
        r matches Ok(v) ==> {
            &&& vec_view(v) == effective_present(
                stream_view(*old(present)),
                slice_view(parent_present),
                batch_size as nat,
            )
            &&& (*old(present) matches Some(s) ==> final(present)->Some_0.rest() == s.rest().skip(
                own_demand(slice_view(parent_present), batch_size as nat) as int,
            ))
        },
{
    match present {
        None => match parent_present {
            None => Ok(None),
            Some(p) => Ok(Some(copy_mask(p))),
        },
        Some(s) => match parent_present {
            None => {
                if s.remaining() < batch_size {
                    return Err(out_of_spec("present stream holds fewer values than the batch"));
                }
                let mut out: Vec<bool> = Vec::new();
                let mut i: usize = 0;
                while i < batch_size
                    invariant
                        s.wf(),
                        s.pos + batch_size <= s.values.len(),
                        s.values == old(present)->Some_0.values,
                        s.pos == old(present)->Some_0.pos,
                        i <= batch_size,
                        out@ == s.rest().take(i as int),
                    decreases batch_size - i,
                {
                    out.push(s.values[s.pos + i]);
                    i = i + 1;
                    assert(out@ =~= s.rest().take(i as int));
                }
                s.pos = s.pos + batch_size;
                assert(s.rest() =~= old(present)->Some_0.rest().skip(batch_size as int));
                Ok(Some(out))
            },
            Some(p) => {
                let needed = count_present(p);
                if s.remaining() < needed {
                    return Err(out_of_spec("present stream holds fewer values than the parent's rows"));
                }
                let ghost own = s.rest();
                let mut out: Vec<bool> = Vec::new();
                let mut used: usize = 0;
                let mut i: usize = 0;
                while i < p.len()
                    invariant
                        s.wf(),
                        s.pos + needed <= s.values.len(),
                        own == s.rest(),
                        needed == count_true(p@),
                        i <= p@.len(),
                        used == count_true(p@.take(i as int)),
                        used <= needed,
                        out@.len() == i,
                        forall|j: int|
                            0 <= j < i ==> #[trigger] out@[j] == (p@[j] && own[count_true(
                                p@.take(j),
                            ) as int]),
                    decreases p@.len() - i,
                {
                    proof {
                        lemma_count_true_step(p@, i as int);
                        lemma_count_true_monotone(p@, i as int + 1, p@.len() as int);
                        assert(p@.take(p@.len() as int) =~= p@);
                    }
                    if p[i] {
                        out.push(s.values[s.pos + used]);
                        used = used + 1;
                    } else {
                        out.push(false);
                    }
                    i = i + 1;
                }
                s.pos = s.pos + needed;
                assert(s.rest() =~= own.skip(needed as int));
                assert(out@ =~= merged(p@, own));
                Ok(Some(out))
            },
        },
    }
}

/// Decoder state of a struct column: its own presence stream, if it has
/// one. Each child is asked for the same rows under the presence that the
/// struct derives.
#[derive(Debug)]
pub struct StructArrayDecoder {
    pub present: Option<BoolStream>,
}

impl StructArrayDecoder {
    pub open spec fn wf(&self) -> bool {
        self.present matches Some(s) ==> s.wf()
    }

    /// The presence vector of the next `batch_size` rows, to be handed to
    /// every child with the same row count.
    pub fn next_batch(&mut self, batch_size: usize, parent_present: Option<&[bool]>) -> (r: Result<
        Option<Vec<bool>>,
        OrcError,
    >)
        requires
            old(self).wf(),
            parent_present matches Some(p) ==> p@.len() == batch_size,
        ensures
            final(self).wf(),
            r is Err <==> (old(self).present matches Some(s) && s.rest().len() < own_demand(
                slice_view(parent_present),
                batch_size as nat,
            )),
            r matches Ok(v) ==> {
                &&& vec_view(v) == effective_present(
                    stream_view(old(self).present),
                    slice_view(parent_present),
                    batch_size as nat,
                )
                &&& (v matches Some(m) ==> m@.len() == batch_size)
                &&& (old(self).present matches Some(s) ==> final(self).present->Some_0.rest()
                    == s.rest().skip(own_demand(slice_view(parent_present), batch_size as nat) as int))
            },
    {
        derive_present_vec(&mut self.present, parent_present, batch_size)
    }
}

} // verus!
