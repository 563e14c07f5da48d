use std::collections::VecDeque;
use std::sync::Arc;

use vstd::prelude::*;

use crate::error::{out_of_spec, OrcError};
use crate::present::{count_true, lemma_count_true_concat};
use crate::schema::{same_type, DataType};
use crate::stream::BoolStream;

verus! {

/// Encoding kind declared for a column in the stripe footer.
#[derive(Debug, Clone, Copy, PartialEq, Eq, Structural)]
pub enum ColumnEncodingKind {
    Direct,
    Dictionary,
    DirectV2,
    DictionaryV2,
}

/// How one column of a stripe is encoded.
#[derive(Debug, Clone, Copy, PartialEq, Eq, Structural)]
pub struct ColumnEncoding {
    pub kind: ColumnEncodingKind,
    pub dictionary_size: Option<u32>,
}

/// The part of a stripe footer that the decoders read: one encoding per
/// column, indexed by the column's pre-order index.
#[derive(Debug)]
pub struct StripeFooter {
    pub columns: Vec<ColumnEncoding>,
}

/// A column of one stripe: its name, its type, the shared footer and the
/// stripe's row count.
#[derive(Debug)]
pub struct Column {
    pub number_of_rows: u64,
    pub footer: Arc<StripeFooter>,
    pub name: String,
    pub data_type: DataType,
}

/// The character of a decimal digit.
pub open spec fn digit_char(d: nat) -> char {
    seq!['0', '1', '2', '3', '4', '5', '6', '7', '8', '9'][d as int]
}

/// The decimal representation of `n`, without sign or leading zeros.
pub open spec fn decimal_text(n: nat) -> Seq<char>
    decreases n,
{
    if n < 10 {
        seq![digit_char(n)]
    } else {
        decimal_text(n / 10).push(digit_char(n % 10))
    }
}

/// `c` is the child of `parent` named `name` whose type is `dt`: it shares
/// the parent's footer and row count.
pub open spec fn is_child_of(c: Column, parent: Column, name: Seq<char>, dt: DataType) -> bool {
    &&& c.number_of_rows == parent.number_of_rows
    &&& c.footer == parent.footer
    &&& c.name@ == name
    &&& same_type(dt, c.data_type)
}

/// The children of a column, as its type derives them.
pub open spec fn children_of(parent: Column, r: Seq<Column>) -> bool {
    match parent.data_type {
        DataType::Struct { children, .. } => {
            &&& r.len() == children@.len()
            &&& forall|k: int|
                0 <= k < r.len() ==> #[trigger] is_child_of(
                    r[k],
                    parent,
                    children@[k].name@,
                    children@[k].data_type,
                )
        },
        DataType::List { child, .. } => {
            &&& r.len() == 1
            &&& is_child_of(r[0], parent, "item"@, *child)
        },
        DataType::Mapping { key, value, .. } => {
            &&& r.len() == 2
            &&& is_child_of(r[0], parent, "key"@, *key)
            &&& is_child_of(r[1], parent, "value"@, *value)
        },
        DataType::Union { variants, .. } => {
            &&& r.len() == variants@.len()
            &&& forall|k: int|
                0 <= k < r.len() ==> #[trigger] is_child_of(
                    r[k],
                    parent,
                    decimal_text(k as nat),
                    variants@[k],
                )
        },
        _ => r.len() == 0,
    }
}

/// Relies on `Arc::clone`: the new handle points to the same footer.
#[verifier::external_body]
fn share_footer(footer: &Arc<StripeFooter>) -> (r: Arc<StripeFooter>)
    ensures
        r == *footer,
{
    Arc::clone(footer)
}

/// Relies on `usize::to_string`: the decimal representation of `n`.
#[verifier::external_body]
fn index_name(n: usize) -> (r: String)
    ensures
        r@ == decimal_text(n as nat),
{
    n.to_string()
}

impl Column {
    pub fn new(
        name: &str,
        data_type: &DataType,
        footer: &Arc<StripeFooter>,
        number_of_rows: u64,
    ) -> (r: Column)
        ensures
            r.number_of_rows == number_of_rows,
            r.footer == *footer,
            r.name@ == name@,
            same_type(*data_type, r.data_type),
    {
        Column {
            number_of_rows,
            footer: share_footer(footer),
            data_type: data_type.duplicate(),
            name: name.to_owned(),
        }
    }

    /// The dictionary size recorded for this column, 0 where none is.
    pub fn dictionary_size(&self) -> (r: usize)
        requires
            self.data_type.spec_column_index() < self.footer.columns@.len(),
        ensures
            r == match self.footer.columns@[self.data_type.spec_column_index() as int].dictionary_size {
                Some(d) => d as usize,
                None => 0usize,
            },
    {
        let column = self.data_type.column_index();
        match self.footer.columns[column].dictionary_size {
            Some(d) => d as usize,
            None => 0,
        }
    }

    /// The encoding recorded for this column.
    pub fn encoding(&self) -> (r: ColumnEncoding)
        requires
            self.data_type.spec_column_index() < self.footer.columns@.len(),
        ensures
            r == self.footer.columns@[self.data_type.spec_column_index() as int],
    {
        let column = self.data_type.column_index();
        self.footer.columns[column]
    }

    pub fn data_type(&self) -> (r: &DataType)
        ensures
            *r == self.data_type,
    {
        &self.data_type
    }

    pub fn name(&self) -> (r: &str)
        ensures
            r@ == self.name@,
    {
        self.name.as_str()
    }

    pub fn column_id(&self) -> (r: u32)
        ensures
            r == self.data_type.spec_column_index() as u32,
    {
        self.data_type.column_index() as u32
    }

    fn child(&self, name: String, data_type: &DataType) -> (r: Column)
        ensures
            is_child_of(r, *self, name@, *data_type),
    {
        Column {
            number_of_rows: self.number_of_rows,
            footer: share_footer(&self.footer),
            name,
            data_type: data_type.duplicate(),
        }
    }

    /// The child columns that this column's type derives: none for a
    /// primitive, one per field of a struct, `item` for a list, `key` and
    /// `value` for a map, one per variant of a union named by its ordinal.
    pub fn children(&self) -> (r: Vec<Column>)
        ensures
            children_of(*self, r@),
    {
        match &self.data_type {
            DataType::Struct { children, .. } => {
                let mut out: Vec<Column> = Vec::new();
                let mut i: usize = 0;
                while i < children.len()
                    invariant
                        self.data_type == (DataType::Struct { column_index: self.data_type.spec_column_index(), children: *children }),
                        i <= children@.len(),
                        out@.len() == i,
                        forall|k: int|
                            0 <= k < i ==> #[trigger] is_child_of(
                                out@[k],
                                *self,
                                children@[k].name@,
                                children@[k].data_type,
                            ),
                    decreases children@.len() - i,
                {
                    let c = self.child(children[i].name.clone(), &children[i].data_type);
                    out.push(c);
                    i = i + 1;
                }
                out
            },
            DataType::List { child, .. } => {
                let c = self.child("item".to_owned(), &**child);
                vec![c]
            },
            DataType::Mapping { key, value, .. } => {
                let k = self.child("key".to_owned(), &**key);
                let v = self.child("value".to_owned(), &**value);
                vec![k, v]
            },
            DataType::Union { variants, .. } => {
                let mut out: Vec<Column> = Vec::new();
                let mut i: usize = 0;
                while i < variants.len()
                    invariant
                        self.data_type == (DataType::Union { column_index: self.data_type.spec_column_index(), variants: *variants }),
                        i <= variants@.len(),
                        out@.len() == i,
                        forall|k: int|
                            0 <= k < i ==> #[trigger] is_child_of(
                                out@[k],
                                *self,
                                decimal_text(k as nat),
                                variants@[k],
                            ),
                    decreases variants@.len() - i,
                {
                    let c = self.child(index_name(i), &variants[i]);
                    out.push(c);
                    i = i + 1;
                }
                out
            },
            _ => Vec::new(),
        }
    }
}

/// Values of a column paired with its presence stream: a value is drawn
/// only at a present row.
pub struct NullableIterator<T> {
    pub present: BoolStream,
    pub iter: VecDeque<Result<T, OrcError>>,
}

/// An error of a nullable sequence: `Some(e)` for an error that the value
/// stream held, `None` for a present row left without a value, which is
/// malformed input.
pub open spec fn error_matches(e: OrcError, s: Option<OrcError>) -> bool {
    match s {
        Some(f) => e == f,
        None => e is OutOfSpec,
    }
}

/// One step over a presence sequence and a value sequence: the item that
/// comes out (`None` once the presence runs out) and what is left of both.
pub open spec fn nullable_step<T>(present: Seq<bool>, values: Seq<Result<T, OrcError>>) -> (
    Option<Result<Option<T>, Option<OrcError>>>,
    Seq<bool>,
    Seq<Result<T, OrcError>>,
) {
    if present.len() == 0 {
        (None, present, values)
    } else if !present[0] {
        (Some(Ok(None)), present.drop_first(), values)
    } else if values.len() == 0 {
        (Some(Err(None)), present.drop_first(), values)
    } else {
        match values[0] {
            Ok(v) => (Some(Ok(Some(v))), present.drop_first(), values.drop_first()),
            Err(e) => (Some(Err(Some(e))), present.drop_first(), values.drop_first()),
        }
    }
}

pub open spec fn prepend_item<T>(x: Option<T>, r: Result<Seq<Option<T>>, Option<OrcError>>) -> Result<
    Seq<Option<T>>,
    Option<OrcError>,
> {
    match r {
        Ok(s) => Ok(seq![x] + s),
        Err(e) => Err(e),
    }
}

pub open spec fn prepend_all<T>(
    buf: Seq<Option<T>>,
    r: (Result<Seq<Option<T>>, Option<OrcError>>, Seq<bool>, Seq<Result<T, OrcError>>),
) -> (Result<Seq<Option<T>>, Option<OrcError>>, Seq<bool>, Seq<Result<T, OrcError>>) {
    (
        match r.0 {
            Ok(s) => Ok(buf + s),
            Err(e) => Err(e),
        },
        r.1,
        r.2,
    )
}

/// Up to `n` items drawn one by one: the items up to the end of the
/// presence, or the first error; and what is left of both sequences.
pub open spec fn collect_items<T>(
    present: Seq<bool>,
    values: Seq<Result<T, OrcError>>,
    n: nat,
) -> (Result<Seq<Option<T>>, Option<OrcError>>, Seq<bool>, Seq<Result<T, OrcError>>)
    decreases n,
{
    if n == 0 {
        (Ok(Seq::empty()), present, values)
    } else {
        let (item, p, v) = nullable_step(present, values);
        match item {
            None => (Ok(Seq::empty()), p, v),
            Some(Err(e)) => (Err(e), p, v),
            Some(Ok(x)) => {
                let (rest, p_rest, v_rest) = collect_items(p, v, (n - 1) as nat);
                (prepend_item(x, rest), p_rest, v_rest)
            },
        }
    }
}

proof fn lemma_prepend_all_push<T>(
    buf: Seq<Option<T>>,
    x: Option<T>,
    r: (Result<Seq<Option<T>>, Option<OrcError>>, Seq<bool>, Seq<Result<T, OrcError>>),
)
    ensures
        prepend_all(buf, (prepend_item(x, r.0), r.1, r.2)) == prepend_all(buf.push(x), r),
{
    if let Ok(s) = r.0 {
        assert(buf + (seq![x] + s) =~= buf.push(x) + s);
    }
}

/// Which entries of a chunk hold a value.
pub open spec fn chunk_validity<T>(r: Seq<Option<T>>) -> Seq<bool> {
    r.map_values(|x: Option<T>| x is Some)
}

/// A chunk that comes back whole reads one presence bit per entry and one
/// value per entry that holds one; a chunk that comes back shorter than
/// asked for has read the presence stream to its end.
pub proof fn lemma_collect_reads<T>(present: Seq<bool>, values: Seq<Result<T, OrcError>>, n: nat)
    ensures
        collect_items(present, values, n).0 matches Ok(r) ==> {
            let (_, p, v) = collect_items(present, values, n);
            &&& r.len() <= n
            &&& present.len() == r.len() + p.len()
            &&& values.len() == count_true(chunk_validity(r)) + v.len()
            &&& p == present.skip(r.len() as int)
            &&& (r.len() < n ==> p.len() == 0)
        },
    decreases n,
{
    let (item, p1, v1) = nullable_step(present, values);
    if n > 0 {
        if let Some(Ok(x)) = item {
            lemma_collect_reads(p1, v1, (n - 1) as nat);
            let (rest, p2, v2) = collect_items(p1, v1, (n - 1) as nat);
            if let Ok(s) = rest {
                let r = seq![x] + s;
                assert(chunk_validity(r) =~= seq![x is Some] + chunk_validity(s));
                lemma_count_true_concat(seq![x is Some], chunk_validity(s));
                let one = seq![x is Some];
                assert(one.drop_last() =~= Seq::<bool>::empty());
                assert(count_true(one.drop_last()) == 0);
                assert(one.last() == (x is Some));
                assert(count_true(seq![x is Some]) == if x is Some {
                    1nat
                } else {
                    0nat
                });
                assert(values.len() == v1.len() + if x is Some {
                    1nat
                } else {
                    0nat
                });
                assert(present.len() == p1.len() + 1);
                assert(p1.skip(s.len() as int) =~= present.skip(r.len() as int));
            }
        } else if item is None {
            assert(present.skip(0) =~= present);
        }
    } else {
        assert(present.skip(0) =~= present);
    }
}

/// Collecting `a` items and then `b` more gives what collecting `a + b` at
/// once gives, and leaves both sequences where it leaves them.
pub proof fn lemma_collect_split<T>(
    present: Seq<bool>,
    values: Seq<Result<T, OrcError>>,
    a: nat,
    b: nat,
)
    requires
        collect_items(present, values, a).0 is Ok,
    ensures
        ({
            let (r1, p1, v1) = collect_items(present, values, a);
            let (r2, p2, v2) = collect_items(p1, v1, b);
            collect_items(present, values, a + b) == (
                match r2 {
                    Ok(s2) => Ok(r1->Ok_0 + s2),
                    Err(e) => Err(e),
                },
                p2,
                v2,
            )
        }),
    decreases a,
{
    let (item, p1, v1) = nullable_step(present, values);
    if a == 0 {
        let (r2, p2, v2) = collect_items(present, values, b);
        if let Ok(s2) = r2 {
            assert(Seq::<Option<T>>::empty() + s2 =~= s2);
        }
    } else {
        match item {
            None => {
                assert(collect_items(present, values, b).0 == Ok::<Seq<Option<T>>, Option<OrcError>>(Seq::empty())
                    || b == 0);
                assert(Seq::<Option<T>>::empty() + Seq::<Option<T>>::empty() =~= Seq::<Option<T>>::empty());
            },
            Some(Ok(x)) => {
                lemma_collect_split(p1, v1, (a - 1) as nat, b);
                assert((a + b - 1) as nat == ((a - 1) as nat + b) as nat);
                let (s1, q1, w1) = collect_items(p1, v1, (a - 1) as nat);
                let (r2, p2, v2) = collect_items(q1, w1, b);
                if let Ok(t2) = r2 {
                    assert(seq![x] + (s1->Ok_0 + t2) =~= (seq![x] + s1->Ok_0) + t2);
                }
            },
            Some(Err(_)) => {},
        }
    }
}

impl<T> NullableIterator<T> {
    pub open spec fn wf(&self) -> bool {
        self.present.wf()
    }

    pub fn new(present: BoolStream, iter: VecDeque<Result<T, OrcError>>) -> (r: NullableIterator<T>)
        ensures
            r.present == present,
            r.iter@ == iter@,
    {
        NullableIterator { present, iter }
    }

    /// The next item: `Ok(None)` at a null row, `Ok(Some(v))` at a present
    /// row, `None` once the presence stream runs out. A present row with no
    /// value left is an `OutOfSpec` error.
    pub fn next(&mut self) -> (r: Option<Result<Option<T>, OrcError>>)
        requires
            old(self).wf(),
        ensures
            final(self).wf(),
            ({
                let (item, p, v) = nullable_step(old(self).present.rest(), old(self).iter@);
                &&& final(self).present.rest() == p
                &&& final(self).iter@ == v
                &&& match item {
                    None => r is None,
                    Some(Ok(x)) => r == Some(Ok::<Option<T>, OrcError>(x)),
                    Some(Err(s)) => r matches Some(Err(e)) && error_matches(e, s),
                }
            }),
    {
        let present = match self.present.next() {
            Some(p) => p,
            None => return None,
        };
        if present {
            match self.iter.pop_front() {
                Some(Ok(value)) => Some(Ok(Some(value))),
                Some(Err(err)) => Some(Err(err)),
                None => Some(Err(out_of_spec("present row without a value"))),
            }
        } else {
            Some(Ok(None))
        }
    }

    /// Collects up to `chunk` items, stopping early where the presence
    /// stream runs out and failing at the first error, including a present
    /// row left without a value.
    pub fn collect_chunk(&mut self, chunk: usize) -> (r: Result<Vec<Option<T>>, OrcError>)
        requires
            old(self).wf(),
        ensures
            final(self).wf(),
            ({
                let (res, p, v) = collect_items(old(self).present.rest(), old(self).iter@, chunk as nat);
                &&& p == final(self).present.rest()
                &&& v == final(self).iter@
                &&& match r {
                    Ok(buf) => res == Ok::<Seq<Option<T>>, Option<OrcError>>(buf@),
                    Err(e) => res matches Err(s) && error_matches(e, s),
                }
            }),
    {
        let ghost all = collect_items(self.present.rest(), self.iter@, chunk as nat);
        let mut buf: Vec<Option<T>> = Vec::new();
        let mut i: usize = 0;
        let mut failed: Option<OrcError> = None;
        while i < chunk
            invariant_except_break
                failed is None,
                all == prepend_all(
                    buf@,
                    collect_items(self.present.rest(), self.iter@, (chunk - i) as nat),
                ),
            invariant
                self.wf(),
                i <= chunk,
            ensures
                failed is None ==> all == prepend_all(
                    buf@,
                    (Ok(Seq::<Option<T>>::empty()), self.present.rest(), self.iter@),
                ),
                failed matches Some(e) ==> (all.0 matches Err(s) && error_matches(e, s))
                    && all.1 == self.present.rest() && all.2 == self.iter@,
            decreases chunk - i,
        {
            let ghost p_before = self.present.rest();
            let ghost v_before = self.iter@;
            match self.next() {
                Some(Ok(value)) => {
                    proof {
                        lemma_prepend_all_push(
                            buf@,
                            value,
                            collect_items(self.present.rest(), self.iter@, (chunk - i - 1) as nat),
                        );
                    }
                    buf.push(value);
                },
                Some(Err(err)) => {
                    proof {
                        let (item, pp, vv) = nullable_step(p_before, v_before);
                        assert(collect_items(p_before, v_before, (chunk - i) as nat) == (
                            Err::<Seq<Option<T>>, Option<OrcError>>(item->Some_0->Err_0),
                            self.present.rest(),
                            self.iter@,
                        ));
                    }
                    failed = Some(err);
                    break ;
                },
                None => {
                    assert(collect_items(p_before, v_before, (chunk - i) as nat) == (
                        Ok::<Seq<Option<T>>, Option<OrcError>>(Seq::empty()),
                        self.present.rest(),
                        self.iter@,
                    ));
                    break ;
                },
            }
            i = i + 1;
        }
        match failed {
            Some(e) => Err(e),
            None => {
                assert(buf@ + Seq::<Option<T>>::empty() =~= buf@);
                Ok(buf)
            },
        }
    }
}

} // verus!
