use vstd::prelude::*;

verus! {

/// A field of a struct type: its name and its type.
#[derive(Debug)]
pub struct NamedColumn {
    pub name: String,
    pub data_type: DataType,
}

/// A node of the ORC schema tree. `column_index` is the pre-order index of
/// the node, the root struct being 0; it keys the stripe footer's encodings.
#[derive(Debug)]
pub enum DataType {
    Boolean { column_index: usize },
    Byte { column_index: usize },
    Short { column_index: usize },
    Int { column_index: usize },
    Long { column_index: usize },
    Float { column_index: usize },
    Double { column_index: usize },
    String { column_index: usize },
    Varchar { column_index: usize, max_length: u32 },
    Char { column_index: usize, max_length: u32 },
    Binary { column_index: usize },
    Decimal { column_index: usize, precision: u32, scale: u32 },
    Timestamp { column_index: usize },
    TimestampWithLocalTimezone { column_index: usize },
    Date { column_index: usize },
    Struct { column_index: usize, children: Vec<NamedColumn> },
    List { column_index: usize, child: Box<DataType> },
    Mapping { column_index: usize, key: Box<DataType>, value: Box<DataType> },
    Union { column_index: usize, variants: Vec<DataType> },
}

/// Deep equality of two schema trees: the same variants with the same
/// fields, names and children, node for node.
pub open spec fn same_type(a: DataType, b: DataType) -> bool
    decreases a,
{
    match a {
        DataType::Struct { column_index, children } => match b {
            DataType::Struct { column_index: j, children: d } => {
                &&& column_index == j
                &&& children@.len() == d@.len()
                &&& forall|k: int|
                    0 <= k < children@.len() ==> #[trigger] children@[k].name@ == d@[k].name@
                        && same_type(children@[k].data_type, d@[k].data_type)
            },
            _ => false,
        },
        DataType::List { column_index, child } => match b {
            DataType::List { column_index: j, child: c } => column_index == j && same_type(
                *child,
                *c,
            ),
            _ => false,
        },
        DataType::Mapping { column_index, key, value } => match b {
            DataType::Mapping { column_index: j, key: k, value: v } => {
                &&& column_index == j
                &&& same_type(*key, *k)
                &&& same_type(*value, *v)
            },
            _ => false,
        },
        DataType::Union { column_index, variants } => match b {
            DataType::Union { column_index: j, variants: w } => {
                &&& column_index == j
                &&& variants@.len() == w@.len()
                &&& forall|k: int|
                    0 <= k < variants@.len() ==> same_type(#[trigger] variants@[k], w@[k])
            },
            _ => false,
        },
        _ => a == b,
    }
}

impl NamedColumn {
    pub fn name(&self) -> (r: &str)
        ensures
            r@ == self.name@,
    {
        self.name.as_str()
    }

    pub fn data_type(&self) -> (r: &DataType)
        ensures
            *r == self.data_type,
    {
        &self.data_type
    }

    /// A deep copy: same name, and a type that matches node for node.
    pub fn duplicate(&self) -> (r: NamedColumn)
        ensures
            r.name@ == self.name@,
            same_type(self.data_type, r.data_type),
        decreases self, 1nat,
    {
        NamedColumn { name: self.name.clone(), data_type: self.data_type.duplicate() }
    }
}

impl DataType {
    pub open spec fn spec_column_index(&self) -> usize {
        match *self {
            DataType::Boolean { column_index } => column_index,
            DataType::Byte { column_index } => column_index,
            DataType::Short { column_index } => column_index,
            DataType::Int { column_index } => column_index,
            DataType::Long { column_index } => column_index,
            DataType::Float { column_index } => column_index,
            DataType::Double { column_index } => column_index,
            DataType::String { column_index } => column_index,
            DataType::Varchar { column_index, .. } => column_index,
            DataType::Char { column_index, .. } => column_index,
            DataType::Binary { column_index } => column_index,
            DataType::Decimal { column_index, .. } => column_index,
            DataType::Timestamp { column_index } => column_index,
            DataType::TimestampWithLocalTimezone { column_index } => column_index,
            DataType::Date { column_index } => column_index,
            DataType::Struct { column_index, .. } => column_index,
            DataType::List { column_index, .. } => column_index,
            DataType::Mapping { column_index, .. } => column_index,
            DataType::Union { column_index, .. } => column_index,
        }
    }

    /// True for the types that have no child columns.
    pub open spec fn is_primitive(&self) -> bool {
        !(self is Struct || self is List || self is Mapping || self is Union)
    }

    /// The pre-order index of this node in the schema tree.
    pub fn column_index(&self) -> (r: usize)
        ensures
            r == self.spec_column_index(),
    {
        match self {
            DataType::Boolean { column_index } => *column_index,
            DataType::Byte { column_index } => *column_index,
            DataType::Short { column_index } => *column_index,
            DataType::Int { column_index } => *column_index,
            DataType::Long { column_index } => *column_index,
            DataType::Float { column_index } => *column_index,
            DataType::Double { column_index } => *column_index,
            DataType::String { column_index } => *column_index,
            DataType::Varchar { column_index, .. } => *column_index,
            DataType::Char { column_index, .. } => *column_index,
            DataType::Binary { column_index } => *column_index,
            DataType::Decimal { column_index, .. } => *column_index,
            DataType::Timestamp { column_index } => *column_index,
            DataType::TimestampWithLocalTimezone { column_index } => *column_index,
            DataType::Date { column_index } => *column_index,
            DataType::Struct { column_index, .. } => *column_index,
            DataType::List { column_index, .. } => *column_index,
            DataType::Mapping { column_index, .. } => *column_index,
            DataType::Union { column_index, .. } => *column_index,
        }
    }

    /// A deep copy that matches the original node for node.
    pub fn duplicate(&self) -> (r: DataType)
        ensures
            same_type(*self, r),
        decreases self, 0nat,
    {
        match self {
            DataType::Struct { column_index, children } => {
                let mut out: Vec<NamedColumn> = Vec::new();
                let mut i: usize = 0;
                while i < children.len()
                    invariant
                        i <= children@.len(),
                        out@.len() == i,
                        decreases_to!(*self => *children),
                        forall|k: int|
                            0 <= k < i ==> #[trigger] children@[k].name@ == out@[k].name@
                                && same_type(children@[k].data_type, out@[k].data_type),
                    decreases children@.len() - i,
                {
                    proof {
                        assert(decreases_to!(children => children@[i as int]));
                    }
                    out.push(children[i].duplicate());
                    i = i + 1;
                }
                let r = DataType::Struct { column_index: *column_index, children: out };
                proof {
                    assert(r->Struct_children@ == out@);
                    assert forall|k: int| 0 <= k < children@.len() implies #[trigger] children@[k].name@
                        == r->Struct_children@[k].name@ && same_type(
                        children@[k].data_type,
                        r->Struct_children@[k].data_type,
                    ) by {
                        assert(children@[k].name@ == out@[k].name@);
                    }
                }
                r
            },
            DataType::List { column_index, child } => {
                DataType::List { column_index: *column_index, child: Box::new((**child).duplicate()) }
            },
            DataType::Mapping { column_index, key, value } => DataType::Mapping {
                column_index: *column_index,
                key: Box::new((**key).duplicate()),
                value: Box::new((**value).duplicate()),
            },
            DataType::Union { column_index, variants } => {
                let mut out: Vec<DataType> = Vec::new();
                let mut i: usize = 0;
                while i < variants.len()
                    invariant
                        i <= variants@.len(),
                        out@.len() == i,
                        decreases_to!(*self => *variants),
                        forall|k: int| 0 <= k < i ==> same_type(#[trigger] variants@[k], out@[k]),
                    decreases variants@.len() - i,
                {
                    proof {
                        assert(decreases_to!(variants => variants@[i as int]));
                    }
                    out.push(variants[i].duplicate());
                    i = i + 1;
                }
                DataType::Union { column_index: *column_index, variants: out }
            },
            DataType::Boolean { column_index } => DataType::Boolean { column_index: *column_index },
            DataType::Byte { column_index } => DataType::Byte { column_index: *column_index },
            DataType::Short { column_index } => DataType::Short { column_index: *column_index },
            DataType::Int { column_index } => DataType::Int { column_index: *column_index },
            DataType::Long { column_index } => DataType::Long { column_index: *column_index },
            DataType::Float { column_index } => DataType::Float { column_index: *column_index },
            DataType::Double { column_index } => DataType::Double { column_index: *column_index },
            DataType::String { column_index } => DataType::String { column_index: *column_index },
            DataType::Varchar { column_index, max_length } => DataType::Varchar {
                column_index: *column_index,
                max_length: *max_length,
            },
            DataType::Char { column_index, max_length } => DataType::Char {
                column_index: *column_index,
                max_length: *max_length,
            },
            DataType::Binary { column_index } => DataType::Binary { column_index: *column_index },
            DataType::Decimal { column_index, precision, scale } => DataType::Decimal {
                column_index: *column_index,
                precision: *precision,
                scale: *scale,
            },
            DataType::Timestamp { column_index } => DataType::Timestamp {
                column_index: *column_index,
            },
            DataType::TimestampWithLocalTimezone { column_index } => {
                DataType::TimestampWithLocalTimezone { column_index: *column_index }
            },
            DataType::Date { column_index } => DataType::Date { column_index: *column_index },
        }
    }
}

} // verus!
