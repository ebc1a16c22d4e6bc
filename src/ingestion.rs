//! The plain values that describe an ingestion: formats, sheet selection,
//! severities, statistics, and the parsing of boolean words.
pub mod csv_input;
pub mod json_input;
pub mod parquet_input;
pub mod sheet_input;

use crate::types::DataSet;
use std::sync::Arc;
use vstd::prelude::*;
use vstd::string::StringExecFns;

verus! {

/// `c` with ASCII letters `'A'..='Z'` mapped to `'a'..='z'`; other characters unchanged.
pub open spec fn ascii_lower_char(c: char) -> char {
    if 'A' <= c && c <= 'Z' {
        ((c as u32) + 32) as char
    } else {
        c
    }
}

/// Every character of `s` through [`ascii_lower_char`].
pub open spec fn ascii_lower(s: Seq<char>) -> Seq<char> {
    s.map_values(|c: char| ascii_lower_char(c))
}

/// Relies on std's `str::to_ascii_lowercase`: ASCII letters lowered, every
/// other character kept.
#[verifier::external_body]
pub(crate) fn to_ascii_lower(s: &str) -> (r: String)
    ensures
        r@ == ascii_lower(s@),
{
    s.to_ascii_lowercase()
}

/// `c` has the Unicode `White_Space` property, as `char::is_whitespace` tests.
pub open spec fn is_white_space(c: char) -> bool {
    ('\u{9}' <= c && c <= '\u{d}') || c == ' ' || c == '\u{85}' || c == '\u{a0}' || c == '\u{1680}' || (
    '\u{2000}' <= c && c <= '\u{200a}') || c == '\u{2028}' || c == '\u{2029}' || c == '\u{202f}' || c
        == '\u{205f}' || c == '\u{3000}'
}

/// `s` without its leading whitespace.
pub open spec fn trim_start_ws(s: Seq<char>) -> Seq<char>
    decreases s.len(),
{
    if s.len() > 0 && is_white_space(s[0]) {
        trim_start_ws(s.drop_first())
    } else {
        s
    }
}

/// `s` without its trailing whitespace.
pub open spec fn trim_end_ws(s: Seq<char>) -> Seq<char>
    decreases s.len(),
{
    if s.len() > 0 && is_white_space(s.last()) {
        trim_end_ws(s.drop_last())
    } else {
        s
    }
}

/// `s` without leading and trailing whitespace, as `str::trim` gives it.
pub open spec fn trimmed(s: Seq<char>) -> Seq<char> {
    trim_end_ws(trim_start_ws(s))
}

/// Relies on std's `str::trim`: the text between the leading and trailing whitespace.
#[verifier::external_body]
pub(crate) fn trim_str(s: &str) -> (r: &str)
    ensures
        r@ == trimmed(s@),
{
    s.trim()
}

/// `a` and `b` have the same characters.
pub(crate) fn same_text(a: &String, b: &str) -> (r: bool)
    ensures
        r == (a@ == b@),
{
    *a == b.to_owned()
}

/// Input formats that ingestion understands.
#[derive(Debug, Clone, Copy, PartialEq, Eq, Structural)]
pub enum IngestionFormat {
    /// Comma-separated values.
    Csv,
    /// A JSON array of objects, or newline-delimited JSON.
    Json,
    /// Apache Parquet.
    Parquet,
    /// Spreadsheet workbooks.
    Excel,
}

/// The format named by a lower-case file extension.
pub open spec fn format_of_extension(ext: Seq<char>) -> Option<IngestionFormat> {
    if ext == "csv"@ {
        Some(IngestionFormat::Csv)
    } else if ext == "json"@ || ext == "ndjson"@ {
        Some(IngestionFormat::Json)
    } else if ext == "parquet"@ || ext == "pq"@ {
        Some(IngestionFormat::Parquet)
    } else if ext == "xlsx"@ || ext == "xls"@ || ext == "xlsm"@ || ext == "xlsb"@ || ext == "ods"@ {
        Some(IngestionFormat::Excel)
    } else {
        None
    }
}

impl IngestionFormat {
    /// The format for a file extension, ignoring ASCII case.
    pub fn from_extension(ext: &str) -> (r: Option<IngestionFormat>)
        ensures
            r == format_of_extension(ascii_lower(ext@)),
    {
        let e = to_ascii_lower(ext);
        if same_text(&e, "csv") {
            Some(IngestionFormat::Csv)
        } else if same_text(&e, "json") || same_text(&e, "ndjson") {
            Some(IngestionFormat::Json)
        } else if same_text(&e, "parquet") || same_text(&e, "pq") {
            Some(IngestionFormat::Parquet)
        } else if same_text(&e, "xlsx") || same_text(&e, "xls") || same_text(&e, "xlsm") || same_text(
            &e,
            "xlsb",
        ) || same_text(&e, "ods") {
            Some(IngestionFormat::Excel)
        } else {
            None
        }
    }
}

/// Which sheets of a workbook to ingest.
#[derive(Debug, Clone, PartialEq, Eq)]
pub enum ExcelSheetSelection {
    /// The first sheet.
    First,
    /// One named sheet.
    Sheet(String),
    /// Every sheet, rows concatenated in workbook order.
    AllSheets,
    /// The listed sheets, rows concatenated in the given order.
    Sheets(Vec<String>),
}

impl Default for ExcelSheetSelection {
    fn default() -> (r: ExcelSheetSelection)
        ensures
            r == ExcelSheetSelection::First,
    {
        ExcelSheetSelection::First
    }
}

/// Severity of an ingestion outcome, in increasing order.
#[derive(Debug, Clone, Copy, PartialEq, Eq, PartialOrd, Ord, Hash)]
pub enum IngestionSeverity {
    /// Informational.
    Info,
    /// Non-fatal problem.
    Warning,
    /// The ingestion failed.
    Error,
    /// The ingestion failed for an infrastructure reason, such as I/O.
    Critical,
}

/// Rank of a severity in the order `Info < Warning < Error < Critical`.
pub open spec fn severity_rank(s: IngestionSeverity) -> int {
    match s {
        IngestionSeverity::Info => 0,
        IngestionSeverity::Warning => 1,
        IngestionSeverity::Error => 2,
        IngestionSeverity::Critical => 3,
    }
}

impl IngestionSeverity {
    fn rank(&self) -> (r: u8)
        ensures
            r as int == severity_rank(*self),
    {
        match self {
            IngestionSeverity::Info => 0,
            IngestionSeverity::Warning => 1,
            IngestionSeverity::Error => 2,
            IngestionSeverity::Critical => 3,
        }
    }

    /// Whether this severity reaches `threshold`, so that an alert is due.
    pub fn reaches(&self, threshold: &IngestionSeverity) -> (r: bool)
        ensures
            r == (severity_rank(*self) >= severity_rank(*threshold)),
    {
        self.rank() >= threshold.rank()
    }
}

/// Context of one ingestion attempt.
#[derive(Debug, Clone, PartialEq, Eq)]
pub struct IngestionContext {
    /// The input path.
    pub path: String,
    /// The format used.
    pub format: IngestionFormat,
}

/// Statistics of a successful ingestion.
#[derive(Debug, Clone, Copy, PartialEq, Eq)]
pub struct IngestionStats {
    /// Rows ingested.
    pub rows: usize,
}

/// The boolean that a word spells, ignoring ASCII case: `true`, `t`, `1`,
/// `yes`, `y` or `false`, `f`, `0`, `no`, `n`.
pub open spec fn bool_of_word(w: Seq<char>) -> Option<bool> {
    let l = ascii_lower(w);
    if l == "true"@ || l == "t"@ || l == "1"@ || l == "yes"@ || l == "y"@ {
        Some(true)
    } else if l == "false"@ || l == "f"@ || l == "0"@ || l == "no"@ || l == "n"@ {
        Some(false)
    } else {
        None
    }
}

/// Parses a boolean word, ignoring ASCII case; an error message for any other text.
pub fn parse_bool(s: &str) -> (r: Result<bool, String>)
    ensures
        match bool_of_word(s@) {
            Some(b) => r == Ok::<bool, String>(b),
            None => r is Err,
        },
{
    let l = to_ascii_lower(s);
    if same_text(&l, "true") || same_text(&l, "t") || same_text(&l, "1") || same_text(&l, "yes")
        || same_text(&l, "y") {
        Ok(true)
    } else if same_text(&l, "false") || same_text(&l, "f") || same_text(&l, "0") || same_text(&l, "no")
        || same_text(&l, "n") {
        Ok(false)
    } else {
        Err("expected bool (true/false/1/0/yes/no)".to_owned())
    }
}

/// [`parse_bool`] on `s` with surrounding whitespace removed.
pub fn parse_bool_str(s: &str) -> (r: Result<bool, String>)
    ensures
        match bool_of_word(trimmed(s@)) {
            Some(b) => r == Ok::<bool, String>(b),
            None => r is Err,
        },
{
    parse_bool(trim_str(s))
}

#[verifier::external_type_specification]
#[verifier::external_body]
pub struct ExIoError(std::io::Error);

#[verifier::external_type_specification]
#[verifier::external_body]
pub struct ExCsvError(csv::Error);

#[verifier::external_type_specification]
#[verifier::external_body]
pub struct ExCalamineError(calamine::Error);

#[verifier::external_type_specification]
#[verifier::external_body]
pub struct ExParquetError(parquet::errors::ParquetError);

/// Errors of ingestion.
#[derive(Debug)]
pub enum IngestionError {
    /// The input could not be read.
    Io(std::io::Error),
    /// The CSV reader failed.
    Csv(csv::Error),
    /// The workbook reader failed.
    Excel(calamine::Error),
    /// The Parquet reader failed.
    Parquet(parquet::errors::ParquetError),
    /// The input does not fit the schema (a missing column or field, an unknown format).
    SchemaMismatch { message: String },
    /// A value could not be parsed into its column's type.
    ParseError { row: usize, column: String, raw: String, message: String },
}

/// Relies on csv's `Error::kind`: tells whether the error is an I/O error.
#[verifier::external_body]
fn csv_error_is_io(e: &csv::Error) -> bool {
    match e.kind() {
        csv::ErrorKind::Io(_) => true,
        _ => false,
    }
}

/// Relies on parquet's `ParquetError`: tells whether the error wraps an I/O error.
#[verifier::external_body]
fn parquet_error_is_io(e: &parquet::errors::ParquetError) -> bool {
    match e {
        parquet::errors::ParquetError::External(inner) => inner.is::<std::io::Error>(),
        _ => false,
    }
}

/// Severity of an error that is not a CSV or Parquet reader error.
pub open spec fn severity_of(e: IngestionError) -> IngestionSeverity {
    match e {
        IngestionError::Io(_) => IngestionSeverity::Critical,
        _ => IngestionSeverity::Error,
    }
}

/// Severity of an ingestion error: I/O failures are critical, the rest are errors.
pub fn severity_for_error(e: &IngestionError) -> (r: IngestionSeverity)
    ensures
        !(e is Csv) && !(e is Parquet) ==> r == severity_of(*e),
        e is Csv || e is Parquet ==> r == IngestionSeverity::Critical || r == IngestionSeverity::Error,
{
    match e {
        IngestionError::Io(_) => IngestionSeverity::Critical,
        IngestionError::Csv(err) => if csv_error_is_io(err) {
            IngestionSeverity::Critical
        } else {
            IngestionSeverity::Error
        },
        IngestionError::Parquet(err) => if parquet_error_is_io(err) {
            IngestionSeverity::Critical
        } else {
            IngestionSeverity::Error
        },
        _ => IngestionSeverity::Error,
    }
}

/// Receives the outcome of each ingestion.
pub trait IngestionObserver: Send + Sync {
    /// Called when an ingestion succeeds.
    fn on_success(&self, ctx: &IngestionContext, stats: IngestionStats);

    /// Called when an ingestion fails.
    fn on_failure(&self, ctx: &IngestionContext, severity: IngestionSeverity, error: &IngestionError);

    /// Called when a failure reaches the alert threshold.
    fn on_alert(&self, ctx: &IngestionContext, severity: IngestionSeverity, error: &IngestionError);
}

/// An observer that passes every call on to each of its observers, in order.
pub struct CompositeObserver {
    observers: Vec<Arc<dyn IngestionObserver>>,
}

impl CompositeObserver {
    /// A composite of `observers`.
    pub fn new(observers: Vec<Arc<dyn IngestionObserver>>) -> (r: CompositeObserver)
        ensures
            r.members() == observers@,
    {
        CompositeObserver { observers }
    }

    /// The observers, in the order they are called.
    pub closed spec fn members(self) -> Seq<Arc<dyn IngestionObserver>> {
        self.observers@
    }
}

impl IngestionObserver for CompositeObserver {
    fn on_success(&self, ctx: &IngestionContext, stats: IngestionStats) {
        let mut i: usize = 0;
        while i < self.observers.len()
            decreases self.observers.len() - i,
        {
            self.observers[i].on_success(ctx, stats);
            i += 1;
        }
    }

    fn on_failure(&self, ctx: &IngestionContext, severity: IngestionSeverity, error: &IngestionError) {
        let mut i: usize = 0;
        while i < self.observers.len()
            decreases self.observers.len() - i,
        {
            self.observers[i].on_failure(ctx, severity, error);
            i += 1;
        }
    }

    fn on_alert(&self, ctx: &IngestionContext, severity: IngestionSeverity, error: &IngestionError) {
        let mut i: usize = 0;
        while i < self.observers.len()
            decreases self.observers.len() - i,
        {
            self.observers[i].on_alert(ctx, severity, error);
            i += 1;
        }
    }
}

/// Options of an ingestion.
#[derive(Clone)]
pub struct IngestionOptions {
    /// The format; `None` infers it from the file extension.
    pub format: Option<IngestionFormat>,
    /// Which workbook sheets to read.
    pub excel_sheet_selection: ExcelSheetSelection,
    /// Who hears of the outcome.
    pub observer: Option<Arc<dyn IngestionObserver>>,
    /// Lowest severity that raises an alert.
    pub alert_at_or_above: IngestionSeverity,
}

impl Default for IngestionOptions {
    fn default() -> (r: IngestionOptions)
        ensures
            r.format is None,
            r.excel_sheet_selection == ExcelSheetSelection::First,
            r.observer is None,
            r.alert_at_or_above == IngestionSeverity::Critical,
    {
        IngestionOptions {
            format: None,
            excel_sheet_selection: ExcelSheetSelection::First,
            observer: None,
            alert_at_or_above: IngestionSeverity::Critical,
        }
    }
}

/// Tells the observer of `options`, if any, how the ingestion in `ctx` ended:
/// its row count on success; on failure its severity, and an alert as well
/// when the severity reaches the threshold. Returns the severity of a failure.
pub fn report_outcome(
    options: &IngestionOptions,
    ctx: &IngestionContext,
    result: &Result<DataSet, IngestionError>,
) -> (r: Option<IngestionSeverity>)
    ensures
        match result {
            Ok(_) => r is None,
            Err(e) => r is Some && (!(e is Csv) && !(e is Parquet) ==> r == Some(severity_of(*e))),
        },
{
    match result {
        Ok(ds) => {
            match &options.observer {
                Some(obs) => obs.on_success(ctx, IngestionStats { rows: ds.row_count() }),
                None => {},
            }
            None
        },
        Err(e) => {
            let sev = severity_for_error(e);
            match &options.observer {
                Some(obs) => {
                    obs.on_failure(ctx, sev, e);
                    if sev.reaches(&options.alert_at_or_above) {
                        obs.on_alert(ctx, sev, e);
                    }
                },
                None => {},
            }
            Some(sev)
        },
    }
}

/// The extension of the last component of `path`, as `Path::extension` finds it.
pub uninterp spec fn extension_of(path: Seq<char>) -> Option<Seq<char>>;

/// Relies on std's `Path::extension`: the text after the last dot of the file
/// name, if there is one and it is valid UTF-8.
#[verifier::external_body]
fn path_extension(path: &str) -> (r: Option<String>)
    ensures
        r is Some <==> extension_of(path@) is Some,
        r is Some ==> r->0@ == extension_of(path@)->0,
{
    std::path::Path::new(path).extension().and_then(|e| e.to_str()).map(|e| e.to_owned())
}

/// The format of `path` by its extension, ignoring ASCII case.
pub fn infer_format_from_path(path: &str) -> (r: Result<IngestionFormat, IngestionError>)
    ensures
        match extension_of(path@) {
            Some(ext) => match format_of_extension(ascii_lower(ext)) {
                Some(f) => r matches Ok(g) && g == f,
                None => r matches Err(IngestionError::SchemaMismatch { .. }),
            },
            None => r matches Err(IngestionError::SchemaMismatch { .. }),
        },
{
    match path_extension(path) {
        None => {
            let mut message = String::from_str("cannot infer format: path has no extension (");
            message.append(path);
            message.append(")");
            Err(IngestionError::SchemaMismatch { message })
        },
        Some(ext) => match IngestionFormat::from_extension(ext.as_str()) {
            Some(f) => Ok(f),
            None => {
                let mut message = String::from_str("cannot infer format from extension '");
                message.append(ext.as_str());
                message.append("' for path (");
                message.append(path);
                message.append(")");
                Err(IngestionError::SchemaMismatch { message })
            },
        },
    }
}

} // verus!
