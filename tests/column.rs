use std::collections::VecDeque;
use std::sync::Arc;

use datafusion_orc::column::{Column, ColumnEncoding, ColumnEncodingKind, NullableIterator, StripeFooter};
use datafusion_orc::error::OrcError;
use datafusion_orc::schema::{DataType, NamedColumn};
use datafusion_orc::stream::BoolStream;

fn footer() -> Arc<StripeFooter> {
    Arc::new(StripeFooter {
        columns: vec![
            ColumnEncoding { kind: ColumnEncodingKind::Direct, dictionary_size: None },
            ColumnEncoding { kind: ColumnEncodingKind::DictionaryV2, dictionary_size: Some(17) },
            ColumnEncoding { kind: ColumnEncodingKind::DirectV2, dictionary_size: None },
        ],
    })
}

#[test]
fn column_accessors() {
    let f = footer();
    let dt = DataType::String { column_index: 1 };
    let c = Column::new("name", &dt, &f, 10);
    assert_eq!(c.name(), "name");
    assert_eq!(c.column_id(), 1);
    assert_eq!(c.dictionary_size(), 17);
    assert_eq!(c.encoding().kind, ColumnEncodingKind::DictionaryV2);
    assert_eq!(c.number_of_rows, 10);
    assert!(matches!(c.data_type(), DataType::String { column_index: 1 }));
    assert!(c.children().is_empty());
}

#[test]
fn dictionary_size_defaults_to_zero() {
    let f = footer();
    let c = Column::new("x", &DataType::Int { column_index: 2 }, &f, 3);
    assert_eq!(c.dictionary_size(), 0);
    assert_eq!(c.encoding().kind, ColumnEncodingKind::DirectV2);
}

#[test]
fn struct_children_keep_order() {
    let f = footer();
    let dt = DataType::Struct {
        column_index: 0,
        children: vec![
            NamedColumn { name: "a".to_string(), data_type: DataType::Int { column_index: 1 } },
            NamedColumn { name: "b".to_string(), data_type: DataType::String { column_index: 2 } },
        ],
    };
    let c = Column::new("root", &dt, &f, 5);
    let kids = c.children();
    assert_eq!(kids.len(), 2);
    assert_eq!(kids[0].name(), "a");
    assert_eq!(kids[1].name(), "b");
    assert_eq!(kids[0].column_id(), 1);
    assert_eq!(kids[1].column_id(), 2);
    assert_eq!(kids[1].number_of_rows, 5);
    assert!(Arc::ptr_eq(&kids[0].footer, &f));
}

#[test]
fn list_child_is_item() {
    let f = footer();
    let dt = DataType::List { column_index: 1, child: Box::new(DataType::Long { column_index: 2 }) };
    let c = Column::new("l", &dt, &f, 4);
    let kids = c.children();
    assert_eq!(kids.len(), 1);
    assert_eq!(kids[0].name(), "item");
    assert_eq!(kids[0].column_id(), 2);
}

#[test]
fn map_children_are_key_and_value() {
    let f = footer();
    let dt = DataType::Mapping {
        column_index: 0,
        key: Box::new(DataType::String { column_index: 1 }),
        value: Box::new(DataType::Double { column_index: 2 }),
    };
    let kids = Column::new("m", &dt, &f, 4).children();
    assert_eq!(kids.len(), 2);
    assert_eq!(kids[0].name(), "key");
    assert_eq!(kids[1].name(), "value");
    assert!(matches!(kids[1].data_type(), DataType::Double { column_index: 2 }));
}

#[test]
fn union_children_named_by_ordinal() {
    let f = footer();
    let mut variants = Vec::new();
    for i in 0..12 {
        variants.push(DataType::Int { column_index: i + 1 });
    }
    let dt = DataType::Union { column_index: 0, variants };
    let kids = Column::new("u", &dt, &f, 4).children();
    assert_eq!(kids.len(), 12);
    assert_eq!(kids[0].name(), "0");
    assert_eq!(kids[1].name(), "1");
    assert_eq!(kids[11].name(), "11");
    assert_eq!(kids[11].column_id(), 12);
}

#[test]
fn duplicate_copies_nested_types() {
    let dt = DataType::List {
        column_index: 3,
        child: Box::new(DataType::Decimal { column_index: 4, precision: 10, scale: 2 }),
    };
    match dt.duplicate() {
        DataType::List { column_index, child } => {
            assert_eq!(column_index, 3);
            assert!(matches!(*child, DataType::Decimal { column_index: 4, precision: 10, scale: 2 }));
        }
        _ => panic!("wrong variant"),
    }
}

fn nullable(present: Vec<bool>, values: Vec<Result<i64, OrcError>>) -> NullableIterator<i64> {
    NullableIterator::new(BoolStream::new(present), VecDeque::from(values))
}

#[test]
fn collect_chunk_interleaves_nulls() {
    let mut it = nullable(vec![true, false, true, true], vec![Ok(1), Ok(2), Ok(3)]);
    let v = it.collect_chunk(3).unwrap();
    assert_eq!(v, vec![Some(1), None, Some(2)]);
    let v = it.collect_chunk(3).unwrap();
    assert_eq!(v, vec![Some(3)]);
    let v = it.collect_chunk(3).unwrap();
    assert!(v.is_empty());
}

#[test]
fn collect_chunk_fails_when_values_run_out() {
    let mut it = nullable(vec![false, true, true], vec![Ok(7)]);
    assert!(matches!(it.collect_chunk(10), Err(OrcError::OutOfSpec { .. })));
}

#[test]
fn nullable_next_without_value_is_out_of_spec() {
    let mut it = nullable(vec![true], vec![]);
    assert!(matches!(it.next(), Some(Err(OrcError::OutOfSpec { .. }))));
    assert!(it.next().is_none());
}

#[test]
fn collect_chunk_stops_at_end_of_presence() {
    let mut it = nullable(vec![false, true], vec![Ok(7), Ok(8)]);
    assert_eq!(it.collect_chunk(10).unwrap(), vec![None, Some(7)]);
    assert!(it.collect_chunk(10).unwrap().is_empty());
}

#[test]
fn collect_chunks_concatenate_to_one_chunk() {
    let present = vec![true, false, true, true, false];
    let values = || vec![Ok(1), Ok(2), Ok(3)];
    let mut x = nullable(present.clone(), values());
    let mut y = nullable(present, values());
    let mut parts = x.collect_chunk(2).unwrap();
    parts.extend(x.collect_chunk(3).unwrap());
    assert_eq!(parts, y.collect_chunk(5).unwrap());
    assert_eq!(parts.len(), 5);
    assert_eq!(parts.iter().filter(|v| v.is_some()).count(), 3);
}

#[test]
fn collect_chunk_fails_at_error() {
    let mut it = nullable(
        vec![true, true, true],
        vec![Ok(1), Err(OrcError::VarintTooLarge), Ok(3)],
    );
    assert!(matches!(it.collect_chunk(3), Err(OrcError::VarintTooLarge)));
}

#[test]
fn nullable_next_yields_items() {
    let mut it = nullable(vec![false, true], vec![Ok(5)]);
    assert!(matches!(it.next(), Some(Ok(None))));
    assert!(matches!(it.next(), Some(Ok(Some(5)))));
    assert!(it.next().is_none());
}
