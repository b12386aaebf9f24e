use std::sync::Arc;

use bustubx::catalog::{Column, DataType, Schema};
use bustubx::common::{ScalarValue, TableReference};
use bustubx::error::BustubxError;
use bustubx::execution::{OrderByExpr, PhysicalCreateIndex, PhysicalSort, PhysicalValues, VolcanoExecutor};
use bustubx::expression::ColumnExpr;
use bustubx::optimizer::PhysicalInsertOperator;
use bustubx::storage::Tuple;

fn schema() -> Arc<Schema> {
    Arc::new(Schema::new(vec![
        Column::new("a".to_string(), DataType::Int32, true),
        Column::new("b".to_string(), DataType::Boolean, false),
    ]))
}

fn order_by(name: &str, asc: bool) -> OrderByExpr {
    OrderByExpr { expr: ColumnExpr { relation: None, name: name.to_string() }, asc }
}

fn row(s: &Arc<Schema>, a: Option<i32>, b: bool) -> Tuple {
    Tuple::new(s.clone(), vec![ScalarValue::Int32(a), ScalarValue::Boolean(Some(b))])
}

fn a_of(t: &Tuple) -> Option<i32> {
    match t.data[0] {
        ScalarValue::Int32(v) => v,
        _ => panic!("not an Int32"),
    }
}

fn b_of(t: &Tuple) -> Option<bool> {
    match t.data[1] {
        ScalarValue::Boolean(v) => v,
        _ => panic!("not a Boolean"),
    }
}

/// Sorts rows whose sort keys are their leading columns, in order.
fn sort(order_bys: Vec<OrderByExpr>, rows: Vec<Tuple>) -> Vec<Tuple> {
    let n = order_bys.len();
    let input = PhysicalValues::new(schema().columns.clone(), rows);
    let mut sort = PhysicalSort::new(order_bys, input, move |t: &Tuple| t.data[..n].to_vec());
    assert!(sort.init().is_ok());
    let mut out = Vec::new();
    while let Ok(Some(t)) = sort.next() {
        out.push(t);
    }
    out
}

#[test]
fn sort_ascending_puts_null_first_and_keeps_ties_in_input_order() {
    let s = schema();
    let rows = vec![
        row(&s, Some(3), true),
        row(&s, None, false),
        row(&s, Some(1), false),
        row(&s, Some(3), false),
        row(&s, Some(-2), true),
    ];
    let out = sort(vec![order_by("a", true)], rows);
    let a: Vec<Option<i32>> = out.iter().map(a_of).collect();
    assert_eq!(a, vec![None, Some(-2), Some(1), Some(3), Some(3)]);
    assert_eq!(b_of(&out[3]), Some(true));
    assert_eq!(b_of(&out[4]), Some(false));
}

#[test]
fn sort_descending_then_by_second_key() {
    let s = schema();
    let rows = vec![
        row(&s, Some(1), true),
        row(&s, Some(2), false),
        row(&s, Some(1), false),
        row(&s, Some(2), true),
    ];
    let out = sort(vec![order_by("a", false), order_by("b", true)], rows);
    let got: Vec<(Option<i32>, Option<bool>)> = out.iter().map(|t| (a_of(t), b_of(t))).collect();
    assert_eq!(
        got,
        vec![(Some(2), Some(false)), (Some(2), Some(true)), (Some(1), Some(false)), (Some(1), Some(true))]
    );
}

#[test]
fn sort_next_after_end_yields_none() {
    let input = PhysicalValues::new(Vec::new(), Vec::new());
    let mut sort = PhysicalSort::new(vec![order_by("a", true)], input, |t: &Tuple| t.data[..1].to_vec());
    assert!(matches!(sort.next(), Ok(None)));
    assert!(sort.init().is_ok());
    assert!(matches!(sort.next(), Ok(None)));
    assert!(matches!(sort.next(), Ok(None)));
}

#[test]
fn sort_reports_its_input_schema() {
    let input = PhysicalValues::new(schema().columns.clone(), Vec::new());
    let sort = PhysicalSort::new(vec![order_by("a", true)], input, |t: &Tuple| t.data[..1].to_vec());
    let out = sort.output_schema();
    assert_eq!(out.columns.len(), 2);
    assert_eq!(out.columns[0].name, "a");
    assert_eq!(out.columns[1].name, "b");
}

#[test]
fn sort_of_create_index_is_empty() {
    let input = PhysicalCreateIndex::new(
        "idx".to_string(),
        TableReference::Bare { table: "t".to_string() },
        schema(),
        vec![order_by("a", true)],
    );
    let mut sort = PhysicalSort::new(vec![order_by("a", true)], input, |t: &Tuple| t.data[..1].to_vec());
    assert!(sort.init().is_ok());
    assert!(matches!(sort.next(), Ok(None)));
    assert_eq!(sort.output_schema().columns.len(), 0);
}

#[test]
fn values_rewind_on_init() {
    let s = schema();
    let mut v = PhysicalValues::new(s.columns.clone(), vec![row(&s, Some(1), true)]);
    assert!(matches!(v.next(), Ok(Some(_))));
    assert!(matches!(v.next(), Ok(None)));
    assert!(v.init().is_ok());
    assert_eq!(a_of(&v.next().unwrap().unwrap()), Some(1));
}

#[test]
fn column_data_type_by_name() {
    let s = schema();
    let e = ColumnExpr { relation: Some(TableReference::Bare { table: "t".to_string() }), name: "b".to_string() };
    assert!(matches!(e.data_type(&s), Ok(DataType::Boolean)));
    let missing = ColumnExpr { relation: None, name: "c".to_string() };
    match missing.data_type(&s) {
        Err(BustubxError::Internal(msg)) => assert_eq!(msg, "Failed to get column"),
        _ => panic!("expected an internal error"),
    }
}

#[test]
fn schema_finds_first_column_of_a_name() {
    let s = Schema::new(vec![
        Column::new("x".to_string(), DataType::Int8, false),
        Column::new("y".to_string(), DataType::Int16, false),
        Column::new("y".to_string(), DataType::Int64, true),
    ]);
    let c = s.get_col_by_name(&"y".to_string()).unwrap();
    assert!(matches!(c.data_type, DataType::Int16));
    assert!(s.get_col_by_name(&"z".to_string()).is_none());
}

#[test]
fn insert_operator_outputs_its_columns() {
    let op = PhysicalInsertOperator::new(
        "t".to_string(),
        vec![Column::new("a".to_string(), DataType::Int32, true)],
    );
    let out = op.output_schema();
    assert_eq!(out.columns.len(), 1);
    assert_eq!(out.columns[0].name, "a");
    assert_eq!(op.table_name, "t");
}

#[test]
fn create_index_yields_nothing() {
    let mut op = PhysicalCreateIndex::new(
        "idx".to_string(),
        TableReference::Bare { table: "t".to_string() },
        schema(),
        vec![order_by("a", true)],
    );
    assert!(op.init().is_ok());
    assert!(matches!(op.next(), Ok(None)));
    assert_eq!(op.output_schema().columns.len(), 0);
    assert_eq!(op.name, "idx");
}

#[test]
fn sort_keeps_rows_handed_out() {
    let s = schema();
    let values = PhysicalValues::new(s.columns.clone(), vec![row(&s, Some(2), true), row(&s, Some(1), true)]);
    let mut sorted = PhysicalSort::new(vec![order_by("a", true)], values, |t: &Tuple| t.data[..1].to_vec());
    assert!(sorted.init().is_ok());
    assert_eq!(a_of(&sorted.next().unwrap().unwrap()), Some(1));
    assert_eq!(a_of(&sorted.next().unwrap().unwrap()), Some(2));
    assert!(sorted.init().is_ok());
    assert_eq!(a_of(&sorted.next().unwrap().unwrap()), Some(1));
}

#[test]
fn sort_stays_exhausted() {
    let s = schema();
    let values = PhysicalValues::new(s.columns.clone(), vec![row(&s, Some(3), true)]);
    let mut sorted = PhysicalSort::new(vec![order_by("a", true)], values, |t: &Tuple| t.data[..1].to_vec());
    assert!(sorted.init().is_ok());
    assert!(matches!(sorted.next(), Ok(Some(_))));
    for _ in 0..5 {
        assert!(matches!(sorted.next(), Ok(None)));
    }
}
