use rust_data_processing::processing;
use rust_data_processing::processing::{column_sums_fit, filter, reduce, ReduceOp};
use rust_data_processing::types::{DataSet, DataType, Field, Schema, Value};

fn sample_dataset() -> DataSet {
    let schema = Schema::new(vec![
        Field::new("id", DataType::Int64),
        Field::new("active", DataType::Bool),
        Field::new("name", DataType::Utf8),
    ]);

    let rows = vec![
        vec![Value::Int64(1), Value::Bool(true), Value::Utf8("a".to_string())],
        vec![Value::Int64(2), Value::Bool(false), Value::Utf8("b".to_string())],
        vec![Value::Int64(3), Value::Bool(true), Value::Utf8("c".to_string())],
    ];

    DataSet::new(schema, rows)
}

fn float(x: f64) -> Value {
    Value::Float64(x.to_bits())
}

/// Floating-point arithmetic on bit patterns, as the caller of `reduce` supplies it.
fn float_ops(op: ReduceOp, a: u64, b: u64) -> u64 {
    let (x, y) = (f64::from_bits(a), f64::from_bits(b));
    let r = match op {
        ReduceOp::Sum => x + y,
        ReduceOp::Min => x.min(y),
        ReduceOp::Max => x.max(y),
        ReduceOp::Count => x,
    };
    r.to_bits()
}

fn numeric_dataset_with_nulls() -> DataSet {
    let schema = Schema::new(vec![
        Field::new("id", DataType::Int64),
        Field::new("score", DataType::Float64),
    ]);

    let rows = vec![
        vec![Value::Int64(1), float(10.0)],
        vec![Value::Int64(2), Value::Null],
        vec![Value::Int64(3), float(5.5)],
    ];

    DataSet::new(schema, rows)
}

#[test]
fn schema_index_of_works() {
    let ds = sample_dataset();
    assert_eq!(ds.schema.index_of("id"), Some(0));
    assert_eq!(ds.schema.index_of("active"), Some(1));
    assert_eq!(ds.schema.index_of("name"), Some(2));
    assert_eq!(ds.schema.index_of("missing"), None);
}

#[test]
fn schema_index_of_picks_first_duplicate() {
    let schema = Schema::new(vec![
        Field::new("x", DataType::Int64),
        Field::new("y", DataType::Bool),
        Field::new("y", DataType::Utf8),
    ]);
    assert_eq!(schema.index_of("y"), Some(1));
    assert_eq!(Schema::new(vec![]).index_of("y"), None);
}

#[test]
fn schema_field_names_in_order() {
    let ds = sample_dataset();
    assert_eq!(ds.schema.field_names(), vec!["id".to_string(), "active".to_string(), "name".to_string()]);
}

#[test]
fn filter_rows_by_numeric_predicate() {
    let ds = sample_dataset();
    let id_idx = ds.schema.index_of("id").unwrap();

    let out = ds.filter_rows(|row| matches!(row.get(id_idx), Some(Value::Int64(v)) if *v > 1));

    assert_eq!(out.schema, ds.schema);
    assert_eq!(out.row_count(), 2);
    assert_eq!(
        out.rows,
        vec![
            vec![Value::Int64(2), Value::Bool(false), Value::Utf8("b".to_string())],
            vec![Value::Int64(3), Value::Bool(true), Value::Utf8("c".to_string())],
        ]
    );
    // Original unchanged
    assert_eq!(ds.row_count(), 3);
}

#[test]
fn filter_rows_by_bool_predicate() {
    let ds = sample_dataset();
    let active_idx = ds.schema.index_of("active").unwrap();

    let out = filter(&ds, |row| matches!(row.get(active_idx), Some(Value::Bool(true))));

    assert_eq!(out.row_count(), 2);
    assert_eq!(
        out.rows,
        vec![
            vec![Value::Int64(1), Value::Bool(true), Value::Utf8("a".to_string())],
            vec![Value::Int64(3), Value::Bool(true), Value::Utf8("c".to_string())],
        ]
    );
}

#[test]
fn filter_rows_can_return_empty_dataset() {
    let ds = sample_dataset();
    let out = ds.filter_rows(|_| false);
    assert_eq!(out.schema, ds.schema);
    assert!(out.rows.is_empty());
}

#[test]
fn map_rows_transforms_values_and_preserves_schema() {
    let ds = sample_dataset();
    let out = processing::map(&ds, |row| {
        let id = match &row[0] {
            Value::Int64(v) => Value::Int64(v + 10),
            other => other.clone(),
        };
        let active = match &row[1] {
            Value::Bool(v) => Value::Bool(!v),
            other => other.clone(),
        };
        let name = match &row[2] {
            Value::Utf8(s) => Value::Utf8(s.to_uppercase()),
            other => other.clone(),
        };
        vec![id, active, name]
    });

    assert_eq!(out.schema, ds.schema);
    assert_eq!(out.row_count(), 3);
    assert_eq!(
        out.rows,
        vec![
            vec![Value::Int64(11), Value::Bool(false), Value::Utf8("A".to_string())],
            vec![Value::Int64(12), Value::Bool(true), Value::Utf8("B".to_string())],
            vec![Value::Int64(13), Value::Bool(false), Value::Utf8("C".to_string())],
        ]
    );

    // Original unchanged
    assert_eq!(ds.rows[0][0], Value::Int64(1));
    assert_eq!(ds.rows[0][1], Value::Bool(true));
    assert_eq!(ds.rows[0][2], Value::Utf8("a".to_string()));
}

#[test]
fn reduce_count_counts_rows() {
    let ds = numeric_dataset_with_nulls();
    assert_eq!(reduce(&ds, "score", ReduceOp::Count, float_ops), Some(Value::Int64(3)));
    assert_eq!(reduce(&ds, "id", ReduceOp::Count, float_ops), Some(Value::Int64(3)));
}

#[test]
fn reduce_sum_ignores_nulls_and_preserves_type() {
    let ds = numeric_dataset_with_nulls();
    assert_eq!(reduce(&ds, "score", ReduceOp::Sum, float_ops), Some(float(15.5)));
    assert_eq!(reduce(&ds, "id", ReduceOp::Sum, float_ops), Some(Value::Int64(6)));
}

#[test]
fn reduce_min_max_ignore_nulls() {
    let ds = numeric_dataset_with_nulls();
    assert_eq!(reduce(&ds, "score", ReduceOp::Min, float_ops), Some(float(5.5)));
    assert_eq!(reduce(&ds, "score", ReduceOp::Max, float_ops), Some(float(10.0)));
    assert_eq!(reduce(&ds, "id", ReduceOp::Min, float_ops), Some(Value::Int64(1)));
    assert_eq!(reduce(&ds, "id", ReduceOp::Max, float_ops), Some(Value::Int64(3)));
}

#[test]
fn reduce_returns_none_for_missing_column() {
    let ds = numeric_dataset_with_nulls();
    assert_eq!(reduce(&ds, "missing", ReduceOp::Count, float_ops), None);
    assert_eq!(reduce(&ds, "missing", ReduceOp::Sum, float_ops), None);
}

#[test]
fn reduce_numeric_returns_null_if_all_values_null() {
    let schema = Schema::new(vec![Field::new("score", DataType::Float64)]);
    let ds = DataSet::new(schema, vec![vec![Value::Null], vec![Value::Null]]);
    assert_eq!(reduce(&ds, "score", ReduceOp::Sum, float_ops), Some(Value::Null));
    assert_eq!(reduce(&ds, "score", ReduceOp::Min, float_ops), Some(Value::Null));
    assert_eq!(reduce(&ds, "score", ReduceOp::Max, float_ops), Some(Value::Null));
}

#[test]
fn reduce_non_numeric_column_gives_null() {
    let ds = sample_dataset();
    assert_eq!(reduce(&ds, "name", ReduceOp::Sum, float_ops), Some(Value::Null));
    assert_eq!(reduce(&ds, "active", ReduceOp::Max, float_ops), Some(Value::Null));
    assert_eq!(reduce(&ds, "name", ReduceOp::Count, float_ops), Some(Value::Int64(3)));
}

#[test]
fn reduce_int_skips_cells_of_other_types() {
    let schema = Schema::new(vec![Field::new("n", DataType::Int64)]);
    let ds = DataSet::new(
        schema,
        vec![vec![Value::Int64(-4)], vec![Value::Utf8("x".to_string())], vec![Value::Int64(9)], vec![]],
    );
    assert_eq!(reduce(&ds, "n", ReduceOp::Sum, float_ops), Some(Value::Int64(5)));
    assert_eq!(reduce(&ds, "n", ReduceOp::Min, float_ops), Some(Value::Int64(-4)));
    assert_eq!(reduce(&ds, "n", ReduceOp::Max, float_ops), Some(Value::Int64(9)));
}

#[test]
fn reduce_on_empty_table() {
    let schema = Schema::new(vec![Field::new("n", DataType::Int64)]);
    let ds = DataSet::new(schema, vec![]);
    assert_eq!(reduce(&ds, "n", ReduceOp::Count, float_ops), Some(Value::Int64(0)));
    assert_eq!(reduce(&ds, "n", ReduceOp::Sum, float_ops), Some(Value::Null));
}

#[test]
fn repeated_filter_and_map_give_identical_tables() {
    let ds = sample_dataset();
    let keep_odd = |row: &Vec<Value>| matches!(row[0], Value::Int64(v) if v % 2 == 1);
    assert_eq!(filter(&ds, keep_odd), filter(&ds, keep_odd));
    let bump = |row: &Vec<Value>| {
        let mut out = row.clone();
        if let Value::Int64(v) = out[0] {
            out[0] = Value::Int64(v * 3);
        }
        out
    };
    let first = processing::map(&ds, bump);
    let second = processing::map(&ds, bump);
    assert_eq!(first, second);
    assert_eq!(first.rows[2][0], Value::Int64(9));
}

#[test]
fn reduce_rows_folds_in_row_order() {
    let ds = sample_dataset();
    let names = ds.reduce_rows(String::new(), |mut acc, row| {
        if let Value::Utf8(s) = &row[2] {
            acc.push_str(s);
        }
        acc
    });
    assert_eq!(names, "abc");
    let total = ds.reduce_rows(0i64, |acc, row| match row[0] {
        Value::Int64(v) => acc * 10 + v,
        _ => acc,
    });
    assert_eq!(total, 123);
}

#[test]
fn column_sums_fit_detects_overflow() {
    let ok = vec![vec![Value::Int64(i64::MAX - 1)], vec![Value::Int64(1)], vec![Value::Int64(-5)]];
    assert!(column_sums_fit(&ok, 0));
    let bad = vec![vec![Value::Int64(i64::MAX)], vec![Value::Int64(1)], vec![Value::Int64(-5)]];
    assert!(!column_sums_fit(&bad, 0));
    let low = vec![vec![Value::Int64(i64::MIN)], vec![Value::Null], vec![Value::Int64(-1)]];
    assert!(!column_sums_fit(&low, 0));
    assert!(column_sums_fit(&vec![], 3));
}
