use std::sync::{Arc, Mutex};

use rust_data_processing::ingestion::csv_input::ingest_csv_records;
use rust_data_processing::ingestion::json_input::ingest_json_from_str;
use rust_data_processing::ingestion::parquet_input::{ingest_parquet_rows, ParquetCell, ParquetField};
use rust_data_processing::ingestion::sheet_input::{ingest_sheet_rows, ingest_workbook_sheets, CellData, SheetCell, SheetRows};
use rust_data_processing::ingestion::{
    infer_format_from_path, parse_bool, parse_bool_str, report_outcome, severity_for_error,
    CompositeObserver, IngestionContext, IngestionError, IngestionFormat, IngestionObserver,
    IngestionOptions, IngestionSeverity, IngestionStats,
};
use rust_data_processing::types::{DataSet, DataType, Field, Schema, Value};

fn people_schema() -> Schema {
    Schema::new(vec![
        Field::new("id", DataType::Int64),
        Field::new("name", DataType::Utf8),
        Field::new("score", DataType::Float64),
        Field::new("active", DataType::Bool),
    ])
}

fn parse_f64_bits(s: &str) -> Result<u64, String> {
    s.parse::<f64>().map(f64::to_bits).map_err(|e| e.to_string())
}

/// Reads a CSV text with the csv crate and hands its header and records to the library.
fn ingest_csv_text(input: &str, schema: &Schema) -> Result<DataSet, IngestionError> {
    let mut rdr = csv::ReaderBuilder::new().has_headers(true).from_reader(input.as_bytes());
    let headers: Vec<String> = rdr.headers().unwrap().iter().map(str::to_owned).collect();
    let records: Vec<Vec<String>> = rdr
        .records()
        .map(|r| r.unwrap().iter().map(str::to_owned).collect())
        .collect();
    ingest_csv_records(&headers, &records, schema, parse_f64_bits)
}

#[test]
fn ingest_csv_allows_reordered_columns() {
    let schema = people_schema();
    let input = "name,id,active,score\nAda,1,true,98.5\n";
    let ds = ingest_csv_text(input, &schema).unwrap();
    assert_eq!(ds.row_count(), 1);
    assert_eq!(ds.rows[0][0], Value::Int64(1));
    assert_eq!(ds.rows[0][1], Value::Utf8("Ada".to_string()));
    assert_eq!(ds.rows[0][2], Value::Float64(98.5f64.to_bits()));
    assert_eq!(ds.rows[0][3], Value::Bool(true));
}

#[test]
fn ingest_csv_errors_on_missing_required_column() {
    let schema = people_schema();
    let input = "id,name,score\n1,Ada,98.5\n";
    let err = ingest_csv_text(input, &schema).unwrap_err();
    match err {
        IngestionError::SchemaMismatch { message } => {
            assert!(message.contains("missing required column 'active'"));
            assert!(message.contains("headers=[\"id\", \"name\", \"score\"]"));
        }
        other => panic!("unexpected error {other:?}"),
    }
}

#[test]
fn ingest_csv_errors_on_type_parse() {
    let schema = people_schema();
    let input = "id,name,score,active\nnot_an_int,Ada,98.5,true\n";
    let err = ingest_csv_text(input, &schema).unwrap_err();
    match err {
        IngestionError::ParseError { row, column, raw, .. } => {
            assert_eq!(row, 2);
            assert_eq!(column, "id");
            assert_eq!(raw, "not_an_int");
        }
        other => panic!("unexpected error {other:?}"),
    }
}

#[test]
fn ingest_csv_trims_and_nulls_empty_cells() {
    let schema = people_schema();
    let input = "id,name,score,active\n 7 ,  Bo ,,YES\n,,-1.25,n\n";
    let ds = ingest_csv_text(input, &schema).unwrap();
    assert_eq!(
        ds.rows,
        vec![
            vec![Value::Int64(7), Value::Utf8("Bo".to_string()), Value::Null, Value::Bool(true)],
            vec![Value::Null, Value::Null, Value::Float64((-1.25f64).to_bits()), Value::Bool(false)],
        ]
    );
    assert_eq!(ds.schema, schema);
}

#[test]
fn ingest_csv_reports_bad_bool_and_float_with_row_number() {
    let schema = people_schema();
    let err = ingest_csv_text("id,name,score,active\n1,a,1.0,true\n2,b,2.0,maybe\n", &schema).unwrap_err();
    assert!(matches!(err, IngestionError::ParseError { row: 3, ref column, .. } if column == "active"));
    let err = ingest_csv_text("id,name,score,active\n1,a,x1,true\n", &schema).unwrap_err();
    assert!(matches!(err, IngestionError::ParseError { row: 2, ref column, .. } if column == "score"));
}

#[test]
fn format_from_extension_ignores_case() {
    assert_eq!(IngestionFormat::from_extension("CSV"), Some(IngestionFormat::Csv));
    assert_eq!(IngestionFormat::from_extension("ndjson"), Some(IngestionFormat::Json));
    assert_eq!(IngestionFormat::from_extension("Json"), Some(IngestionFormat::Json));
    assert_eq!(IngestionFormat::from_extension("pq"), Some(IngestionFormat::Parquet));
    assert_eq!(IngestionFormat::from_extension("XLSX"), Some(IngestionFormat::Excel));
    assert_eq!(IngestionFormat::from_extension("ods"), Some(IngestionFormat::Excel));
    assert_eq!(IngestionFormat::from_extension("txt"), None);
    assert_eq!(IngestionFormat::from_extension(""), None);
}

#[test]
fn infer_format_uses_the_extension() {
    assert_eq!(infer_format_from_path("data/people.CSV").unwrap(), IngestionFormat::Csv);
    assert_eq!(infer_format_from_path("a.b/events.ndjson").unwrap(), IngestionFormat::Json);
    assert!(matches!(
        infer_format_from_path("input_without_extension"),
        Err(IngestionError::SchemaMismatch { message }) if message.contains("no extension")
    ));
    assert!(matches!(
        infer_format_from_path("notes.txt"),
        Err(IngestionError::SchemaMismatch { message }) if message.contains("'txt'")
    ));
}

#[test]
fn parse_bool_words() {
    for w in ["true", "T", "1", "Yes", "y"] {
        assert_eq!(parse_bool(w), Ok(true));
    }
    for w in ["FALSE", "f", "0", "no", "N"] {
        assert_eq!(parse_bool(w), Ok(false));
    }
    assert!(parse_bool("maybe").is_err());
    assert!(parse_bool(" true").is_err());
    assert_eq!(parse_bool_str("  yes \t"), Ok(true));
    assert!(parse_bool_str("  ").is_err());
}

#[test]
fn severity_orders_and_reaches_thresholds() {
    assert!(IngestionSeverity::Critical.reaches(&IngestionSeverity::Error));
    assert!(IngestionSeverity::Error.reaches(&IngestionSeverity::Error));
    assert!(!IngestionSeverity::Warning.reaches(&IngestionSeverity::Error));
    assert!(IngestionSeverity::Info < IngestionSeverity::Critical);
    let io = IngestionError::Io(std::io::Error::new(std::io::ErrorKind::NotFound, "gone"));
    assert_eq!(severity_for_error(&io), IngestionSeverity::Critical);
    let schema = IngestionError::SchemaMismatch { message: "m".to_string() };
    assert_eq!(severity_for_error(&schema), IngestionSeverity::Error);
}

#[derive(Default)]
struct RecordingObserver {
    successes: Mutex<Vec<usize>>,
    failures: Mutex<Vec<IngestionSeverity>>,
    alerts: Mutex<Vec<IngestionSeverity>>,
}

impl IngestionObserver for RecordingObserver {
    fn on_success(&self, _ctx: &IngestionContext, stats: IngestionStats) {
        self.successes.lock().unwrap().push(stats.rows);
    }

    fn on_failure(&self, _ctx: &IngestionContext, severity: IngestionSeverity, _error: &IngestionError) {
        self.failures.lock().unwrap().push(severity);
    }

    fn on_alert(&self, _ctx: &IngestionContext, severity: IngestionSeverity, _error: &IngestionError) {
        self.alerts.lock().unwrap().push(severity);
    }
}

fn csv_ctx(path: &str) -> IngestionContext {
    IngestionContext { path: path.to_string(), format: IngestionFormat::Csv }
}

#[test]
fn observer_receives_failure_and_alert_on_critical_io_error() {
    let obs = Arc::new(RecordingObserver::default());
    let opts = IngestionOptions {
        format: Some(IngestionFormat::Csv),
        observer: Some(obs.clone()),
        alert_at_or_above: IngestionSeverity::Critical,
        ..Default::default()
    };

    // Missing file -> Io error -> Critical
    let path = "tests/fixtures/does_not_exist.csv";
    let result: Result<DataSet, IngestionError> = match csv::ReaderBuilder::new().from_path(path) {
        Ok(_) => panic!("the file should not exist"),
        Err(e) => Err(IngestionError::Csv(e)),
    };
    assert_eq!(report_outcome(&opts, &csv_ctx(path), &result), Some(IngestionSeverity::Critical));

    let failures = obs.failures.lock().unwrap().clone();
    let alerts = obs.alerts.lock().unwrap().clone();
    assert_eq!(failures, vec![IngestionSeverity::Critical]);
    assert_eq!(alerts, vec![IngestionSeverity::Critical]);
}

#[test]
fn observer_receives_failure_without_alert_for_non_critical_error() {
    let obs = Arc::new(RecordingObserver::default());
    let opts = IngestionOptions {
        format: Some(IngestionFormat::Csv),
        observer: Some(obs.clone()),
        alert_at_or_above: IngestionSeverity::Critical,
        ..Default::default()
    };

    // Schema mismatch -> Error severity (not Critical) -> should not alert
    let schema = Schema::new(vec![Field::new("definitely_missing", DataType::Utf8)]);
    let result = ingest_csv_text("id,name\n1,Ada\n", &schema);
    assert_eq!(report_outcome(&opts, &csv_ctx("people.csv"), &result), Some(IngestionSeverity::Error));

    let failures = obs.failures.lock().unwrap().clone();
    assert_eq!(failures, vec![IngestionSeverity::Error]);
    assert!(obs.alerts.lock().unwrap().is_empty());
}

#[test]
fn composite_observer_fans_out_success() {
    let a = Arc::new(RecordingObserver::default());
    let b = Arc::new(RecordingObserver::default());
    let composite = Arc::new(CompositeObserver::new(vec![a.clone(), b.clone()]));
    let opts = IngestionOptions { observer: Some(composite), ..Default::default() };
    let result = ingest_csv_text("id\n1\n2\n", &Schema::new(vec![Field::new("id", DataType::Int64)]));
    assert_eq!(report_outcome(&opts, &csv_ctx("x.csv"), &result), None);
    assert_eq!(*a.successes.lock().unwrap(), vec![2]);
    assert_eq!(*b.successes.lock().unwrap(), vec![2]);
    let opts = IngestionOptions {
        observer: Some(Arc::new(CompositeObserver::new(vec![a.clone()]))),
        alert_at_or_above: IngestionSeverity::Error,
        ..Default::default()
    };
    let bad: Result<DataSet, IngestionError> = Err(IngestionError::SchemaMismatch { message: String::new() });
    let _ = report_outcome(&opts, &csv_ctx("x.csv"), &bad);
    assert_eq!(*a.alerts.lock().unwrap(), vec![IngestionSeverity::Error]);
    assert!(b.alerts.lock().unwrap().is_empty());
}

fn people_schema_nested() -> Schema {
    Schema::new(vec![
        Field::new("id", DataType::Int64),
        Field::new("user.name", DataType::Utf8),
        Field::new("score", DataType::Float64),
        Field::new("active", DataType::Bool),
    ])
}

#[test]
fn ingest_json_ndjson_happy_path() {
    let schema = people_schema_nested();
    let input = r#"
{"id":1,"user":{"name":"Ada"},"score":98.5,"active":true}
{"id":2,"user":{"name":"Grace"},"score":87.25,"active":false}
"#;
    let ds = ingest_json_from_str(input, &schema).unwrap();
    assert_eq!(ds.row_count(), 2);
    assert_eq!(ds.rows[0][1], Value::Utf8("Ada".to_string()));
    assert_eq!(ds.rows[1][2], Value::Float64(87.25f64.to_bits()));
    assert_eq!(ds.rows[1][3], Value::Bool(false));
}

#[test]
fn ingest_json_errors_on_missing_field() {
    let schema = people_schema_nested();
    let input = r#"[{"id":1,"user":{"name":"Ada"},"score":98.5}]"#;
    let err = ingest_json_from_str(input, &schema).unwrap_err();
    assert!(
        matches!(err, IngestionError::SchemaMismatch { ref message } if message.contains("missing required field 'active'"))
    );
}

#[test]
fn ingest_json_errors_on_type_mismatch() {
    let schema = people_schema_nested();
    let input = r#"[{"id":"nope","user":{"name":"Ada"},"score":98.5,"active":true}]"#;
    let err = ingest_json_from_str(input, &schema).unwrap_err();
    match err {
        IngestionError::ParseError { row, column, raw, message } => {
            assert_eq!(row, 1);
            assert_eq!(column, "id");
            assert_eq!(raw, "\"nope\"");
            assert_eq!(message, "expected integer number");
        }
        other => panic!("unexpected error {other:?}"),
    }
}

#[test]
fn ingest_json_single_object_nulls_and_integers_as_floats() {
    let schema = people_schema_nested();
    let input = r#"  {"id":null,"user":{"name":null},"score":3,"active":null}  "#;
    let ds = ingest_json_from_str(input, &schema).unwrap();
    assert_eq!(ds.rows, vec![vec![Value::Null, Value::Null, Value::Float64(3.0f64.to_bits()), Value::Null]]);
}

#[test]
fn ingest_json_rejects_bad_shapes() {
    let schema = people_schema_nested();
    assert!(matches!(ingest_json_from_str("   ", &schema), Err(IngestionError::SchemaMismatch { .. })));
    assert!(matches!(ingest_json_from_str("42", &schema), Err(IngestionError::SchemaMismatch { .. })));
    assert!(matches!(
        ingest_json_from_str("[1]", &schema),
        Err(IngestionError::SchemaMismatch { ref message }) if message == "row 1 is not a json object"
    ));
    assert!(matches!(
        ingest_json_from_str("{\"id\":1}\nnot json\n", &schema),
        Err(IngestionError::SchemaMismatch { ref message }) if message.starts_with("invalid ndjson at line 2")
    ));
    let big = r#"[{"id":18446744073709551615,"user":{"name":"x"},"score":1.5,"active":true}]"#;
    assert!(matches!(
        ingest_json_from_str(big, &schema),
        Err(IngestionError::ParseError { ref message, .. }) if message == "u64 out of range for i64"
    ));
    let deep = r#"[{"id":1,"user":"flat","score":1.5,"active":true}]"#;
    assert!(matches!(ingest_json_from_str(deep, &schema), Err(IngestionError::SchemaMismatch { .. })));
}

fn text_cell(s: &str) -> SheetCell {
    SheetCell { data: CellData::Str(s.to_string()), header_text: s.to_string(), display_text: s.to_string() }
}

fn int_cell(i: i64) -> SheetCell {
    SheetCell {
        data: CellData::Int { value: i, as_f64_bits: (i as f64).to_bits() },
        header_text: i.to_string(),
        display_text: i.to_string(),
    }
}

fn float_cell(f: f64) -> SheetCell {
    SheetCell {
        data: CellData::Float {
            bits: f.to_bits(),
            whole: if f.fract() == 0.0 { Some(f as i64) } else { None },
            nonzero: f != 0.0,
        },
        header_text: f.to_string(),
        display_text: f.to_string(),
    }
}

fn empty_cell() -> SheetCell {
    SheetCell { data: CellData::Empty, header_text: String::new(), display_text: String::new() }
}

#[test]
fn sheet_rows_start_below_first_non_empty_row() {
    let schema = people_schema();
    let rows = vec![
        vec![empty_cell(), empty_cell(), empty_cell(), empty_cell()],
        vec![text_cell(" active "), text_cell("score"), text_cell("name"), text_cell("id")],
        vec![int_cell(1), float_cell(98.5), text_cell("Ada"), float_cell(7.0)],
        vec![text_cell(" no "), text_cell("87.25"), float_cell(2.5), text_cell(" 8 ")],
    ];
    let out = ingest_sheet_rows("people", &rows, &schema, &parse_f64_bits).unwrap();
    assert_eq!(
        out,
        vec![
            vec![Value::Int64(7), Value::Utf8("Ada".to_string()), Value::Float64(98.5f64.to_bits()), Value::Bool(true)],
            vec![
                Value::Int64(8),
                Value::Utf8("2.5".to_string()),
                Value::Float64(87.25f64.to_bits()),
                Value::Bool(false)
            ],
        ]
    );
}

#[test]
fn sheet_errors_name_the_sheet_and_cell() {
    let schema = people_schema();
    let header = vec![text_cell("id"), text_cell("name"), text_cell("score")];
    let err = ingest_sheet_rows("missing", &vec![header], &schema, &parse_f64_bits).unwrap_err();
    assert!(matches!(err, IngestionError::SchemaMismatch { ref message }
        if message.starts_with("sheet 'missing': missing required column 'active'")));
    let err = ingest_sheet_rows("blank", &vec![vec![empty_cell()]], &schema, &parse_f64_bits).unwrap_err();
    assert!(matches!(err, IngestionError::SchemaMismatch { ref message } if message.contains("no header row found")));
    let rows = vec![
        vec![text_cell("id"), text_cell("name"), text_cell("score"), text_cell("active")],
        vec![float_cell(1.5), text_cell("x"), float_cell(1.0), int_cell(0)],
    ];
    let err = ingest_sheet_rows("s", &rows, &schema, &parse_f64_bits).unwrap_err();
    match err {
        IngestionError::ParseError { row, column, message, .. } => {
            assert_eq!(row, 2);
            assert_eq!(column, "s:id");
            assert_eq!(message, "expected integer (got non-integer float)");
        }
        other => panic!("unexpected error {other:?}"),
    }
}

#[test]
fn workbook_sheets_concatenate_in_order() {
    let schema = Schema::new(vec![Field::new("id", DataType::Int64)]);
    let first = SheetRows { name: "a".to_string(), rows: vec![vec![text_cell("id")], vec![int_cell(1)]] };
    let second =
        SheetRows { name: "b".to_string(), rows: vec![vec![text_cell("id")], vec![int_cell(2)], vec![int_cell(3)]] };
    let ds = ingest_workbook_sheets(&vec![first, second], &schema, parse_f64_bits).unwrap();
    assert_eq!(ds.rows, vec![vec![Value::Int64(1)], vec![Value::Int64(2)], vec![Value::Int64(3)]]);
    assert!(matches!(
        ingest_workbook_sheets(&vec![], &schema, parse_f64_bits),
        Err(IngestionError::SchemaMismatch { ref message }) if message == "workbook has no sheets"
    ));
}

fn pq(name: &str, cell: ParquetCell, text: &str) -> ParquetField {
    ParquetField { name: name.to_string(), cell, text: text.to_string() }
}

fn parquet_people() -> (Vec<String>, Vec<Vec<ParquetField>>) {
    let columns = vec!["id".to_string(), "name".to_string(), "score".to_string(), "active".to_string()];
    let rows = vec![
        vec![
            pq("id", ParquetCell::Int(1), "1"),
            pq("name", ParquetCell::Str("Ada".to_string()), "\"Ada\""),
            pq("score", ParquetCell::Float(98.5f64.to_bits()), "98.5"),
            pq("active", ParquetCell::Bool(true), "true"),
        ],
        vec![
            pq("active", ParquetCell::Bool(false), "false"),
            pq("score", ParquetCell::Null, "null"),
            pq("name", ParquetCell::Str("Grace".to_string()), "\"Grace\""),
            pq("id", ParquetCell::ULong(2), "2"),
        ],
    ];
    (columns, rows)
}

#[test]
fn ingest_parquet_happy_path() {
    let (columns, rows) = parquet_people();
    let ds = ingest_parquet_rows(&columns, &rows, &people_schema()).unwrap();
    assert_eq!(ds.row_count(), 2);
    assert_eq!(ds.rows[0][0], Value::Int64(1));
    assert_eq!(ds.rows[0][1], Value::Utf8("Ada".to_string()));
    assert_eq!(ds.rows[1][0], Value::Int64(2));
    assert_eq!(ds.rows[1][2], Value::Null);
    assert_eq!(ds.rows[1][3], Value::Bool(false));
}

#[test]
fn ingest_parquet_errors_on_missing_required_column() {
    let (mut columns, rows) = parquet_people();
    columns.pop();
    let err = ingest_parquet_rows(&columns, &rows, &people_schema()).unwrap_err();
    assert!(matches!(err, IngestionError::SchemaMismatch { ref message } if message == "missing required column 'active'"));
}

#[test]
fn ingest_parquet_errors_on_type_mismatch() {
    let (columns, mut rows) = parquet_people();
    rows[1][3] = pq("id", ParquetCell::ULong(u64::MAX), "18446744073709551615");
    let err = ingest_parquet_rows(&columns, &rows, &people_schema()).unwrap_err();
    match err {
        IngestionError::ParseError { row, column, raw, message } => {
            assert_eq!(row, 2);
            assert_eq!(column, "id");
            assert_eq!(raw, "18446744073709551615");
            assert_eq!(message, "u64 out of range for i64");
        }
        other => panic!("unexpected error {other:?}"),
    }
    rows[0][1] = pq("name", ParquetCell::Int(5), "5");
    let err = ingest_parquet_rows(&columns, &rows, &people_schema()).unwrap_err();
    assert!(matches!(err, IngestionError::ParseError { row: 1, ref message, .. } if message == "expected string"));
}

fn bool_cell(b: bool) -> SheetCell {
    SheetCell { data: CellData::Bool(b), header_text: b.to_string(), display_text: b.to_string() }
}

/// The cells of the "people" sheet as a workbook reader hands them over.
fn people_sheet(include_active: bool, id_as_string: bool) -> Vec<Vec<SheetCell>> {
    let id = |i: i64| if id_as_string { text_cell(&i.to_string()) } else { float_cell(i as f64) };
    let mut header = vec![text_cell("id"), text_cell("name"), text_cell("score")];
    let mut r1 = vec![id(1), text_cell("Ada"), float_cell(98.5)];
    let mut r2 = vec![id(2), text_cell("Grace"), float_cell(87.25)];
    if include_active {
        header.push(text_cell("active"));
        r1.push(bool_cell(true));
        r2.push(bool_cell(false));
    }
    vec![header, r1, r2]
}

fn people_workbook() -> Vec<SheetRows> {
    let second = vec![
        vec![text_cell("id"), text_cell("name"), text_cell("score"), text_cell("active")],
        vec![float_cell(3.0), text_cell("Linus"), float_cell(77.0), bool_cell(true)],
    ];
    vec![
        SheetRows { name: "Sheet1".to_string(), rows: people_sheet(true, false) },
        SheetRows { name: "Second".to_string(), rows: second },
    ]
}

#[test]
fn ingest_excel_happy_path() {
    let schema = people_schema();
    let sheets = vec![SheetRows { name: "Sheet1".to_string(), rows: people_sheet(true, false) }];
    let ds = ingest_workbook_sheets(&sheets, &schema, parse_f64_bits).unwrap();
    assert_eq!(ds.row_count(), 2);
    assert_eq!(ds.rows[0][0], Value::Int64(1));
    assert_eq!(ds.rows[0][1], Value::Utf8("Ada".to_string()));
    assert_eq!(ds.rows[1][3], Value::Bool(false));
}

#[test]
fn ingest_excel_errors_on_missing_required_column() {
    let schema = people_schema();
    let sheets = vec![SheetRows { name: "Sheet1".to_string(), rows: people_sheet(false, false) }];
    let err = ingest_workbook_sheets(&sheets, &schema, parse_f64_bits).unwrap_err();
    assert!(matches!(err, IngestionError::SchemaMismatch { ref message } if message.contains("missing required column 'active'")));
}

#[test]
fn ingest_excel_allows_string_numbers() {
    let schema = people_schema();
    let sheets = vec![SheetRows { name: "Sheet1".to_string(), rows: people_sheet(true, true) }];
    let ds = ingest_workbook_sheets(&sheets, &schema, parse_f64_bits).unwrap();
    assert_eq!(ds.rows[0][0], Value::Int64(1));
}

#[test]
fn ingest_excel_multi_tab_all_sheets_concatenates_rows() {
    let schema = people_schema();
    let ds = ingest_workbook_sheets(&people_workbook(), &schema, parse_f64_bits).unwrap();
    assert_eq!(ds.row_count(), 3);
    assert_eq!(ds.rows[2][0], Value::Int64(3));
    assert_eq!(ds.rows[2][1], Value::Utf8("Linus".to_string()));
}

#[test]
fn ingest_excel_multi_tab_selected_sheet_only() {
    let schema = people_schema();
    let selected: Vec<SheetRows> = people_workbook().into_iter().filter(|s| s.name == "Second").collect();
    let ds = ingest_workbook_sheets(&selected, &schema, parse_f64_bits).unwrap();
    assert_eq!(ds.row_count(), 1);
    assert_eq!(ds.rows[0][0], Value::Int64(3));
}
