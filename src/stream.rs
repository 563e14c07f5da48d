use vstd::prelude::*;

verus! {

/// A fully decoded stream of booleans and the position of the next one to
/// be read.
#[derive(Debug)]
pub struct BoolStream {
    pub values: Vec<bool>,
    pub pos: usize,
}

/// A fully decoded stream of unsigned integers and the position of the next
/// one to be read.
#[derive(Debug)]
pub struct U64Stream {
    pub values: Vec<u64>,
    pub pos: usize,
}

/// Rows of the next batch: the rows asked for, or what is left of the
/// stripe where that is fewer.
pub fn batch_len(remaining: u64, requested: usize) -> (r: usize)
    ensures
        r == if (remaining as int) < (requested as int) {
            remaining as int
        } else {
            requested as int
        },
{
    if remaining < requested as u64 {
        remaining as usize
    } else {
        requested
    }
}

/// The rows that successive batches of `size` rows, each cut by
/// `batch_len`, read from a stripe of `rows` rows until it is exhausted.
pub open spec fn rows_read(rows: nat, size: nat) -> nat
    decreases rows,
{
    if rows == 0 || size == 0 {
        0
    } else {
        let b = if rows < size {
            rows
        } else {
            size
        };
        b + rows_read((rows - b) as nat, size)
    }
}

/// Reading a stripe batch after batch until it is exhausted reads each of
/// its rows once: the batch sizes sum to the row count.
pub proof fn lemma_batches_cover_stripe(rows: nat, size: nat)
    requires
        size > 0,
    ensures
        rows_read(rows, size) == rows,
    decreases rows,
{
    if rows > 0 {
        let b = if rows < size {
            rows
        } else {
            size
        };
        lemma_batches_cover_stripe((rows - b) as nat, size);
    }
}

impl BoolStream {
    pub open spec fn wf(&self) -> bool {
        self.pos <= self.values@.len()
    }

    /// The values not read yet.
    pub open spec fn rest(&self) -> Seq<bool> {
        self.values@.skip(self.pos as int)
    }

    pub fn new(values: Vec<bool>) -> (r: BoolStream)
        ensures
            r.wf(),
            r.rest() == values@,
    {
        let r = BoolStream { values, pos: 0 };
        assert(r.rest() =~= r.values@);
        r
    }

    /// The number of values not read yet.
    pub fn remaining(&self) -> (r: usize)
        requires
            self.wf(),
        ensures
            r == self.rest().len(),
    {
        self.values.len() - self.pos
    }

    /// Reads the next value, `None` once the stream is exhausted.
    pub fn next(&mut self) -> (r: Option<bool>)
        requires
            old(self).wf(),
        ensures
            final(self).wf(),
            old(self).rest().len() == 0 ==> r is None && final(self).rest() == old(self).rest(),
            old(self).rest().len() > 0 ==> r == Some(old(self).rest()[0]) && final(self).rest()
                == old(self).rest().drop_first(),
    {
        if self.pos < self.values.len() {
            let v = self.values[self.pos];
            self.pos = self.pos + 1;
            assert(self.rest() =~= old(self).rest().drop_first());
            Some(v)
        } else {
            None
        }
    }
}

/// A fully decoded stream of signed integers and the position of the next
/// one to be read.
#[derive(Debug)]
pub struct I64Stream {
    pub values: Vec<i64>,
    pub pos: usize,
}

impl I64Stream {
    pub open spec fn wf(&self) -> bool {
        self.pos <= self.values@.len()
    }

    /// The values not read yet.
    pub open spec fn rest(&self) -> Seq<i64> {
        self.values@.skip(self.pos as int)
    }

    pub fn new(values: Vec<i64>) -> (r: I64Stream)
        ensures
            r.wf(),
            r.rest() == values@,
    {
        let r = I64Stream { values, pos: 0 };
        assert(r.rest() =~= r.values@);
        r
    }

    /// The number of values not read yet.
    pub fn remaining(&self) -> (r: usize)
        requires
            self.wf(),
        ensures
            r == self.rest().len(),
    {
        self.values.len() - self.pos
    }
}

impl U64Stream {
    pub open spec fn wf(&self) -> bool {
        self.pos <= self.values@.len()
    }

    /// The values not read yet.
    pub open spec fn rest(&self) -> Seq<u64> {
        self.values@.skip(self.pos as int)
    }

    pub fn new(values: Vec<u64>) -> (r: U64Stream)
        ensures
            r.wf(),
            r.rest() == values@,
    {
        let r = U64Stream { values, pos: 0 };
        assert(r.rest() =~= r.values@);
        r
    }

    /// The number of values not read yet.
    pub fn remaining(&self) -> (r: usize)
        requires
            self.wf(),
        ensures
            r == self.rest().len(),
    {
        self.values.len() - self.pos
    }

    /// Reads the next `n` values, or fails without reading where fewer are left.
    pub fn take(&mut self, n: usize) -> (r: Option<Vec<u64>>)
        requires
            old(self).wf(),
        ensures
            final(self).wf(),
            r is None <==> old(self).rest().len() < n,
            r is None ==> final(self).rest() == old(self).rest(),
            r matches Some(v) ==> v@ == old(self).rest().take(n as int) && final(self).rest()
                == old(self).rest().skip(n as int),
    {
        if self.values.len() - self.pos < n {
            return None;
        }
        let mut out: Vec<u64> = Vec::new();
        let mut i: usize = 0;
        while i < n
            invariant
                self.wf(),
                self.pos + n <= self.values.len(),
                self.pos == old(self).pos,
                self.values == old(self).values,
                i <= n,
                out@ == old(self).rest().take(i as int),
            decreases n - i,
        {
            out.push(self.values[self.pos + i]);
            i = i + 1;
            assert(out@ =~= old(self).rest().take(i as int));
        }
        self.pos = self.pos + n;
        assert(self.rest() =~= old(self).rest().skip(n as int));
        Some(out)
    }
}

} // verus!
