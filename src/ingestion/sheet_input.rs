//! Turning the cells of a spreadsheet into a typed table: the first non-empty
//! row is the header, the rows below it are data.
use crate::ingestion::csv_input::{is_first_header, is_pure_float_parser, parse_i64, parsed_i64};
use crate::ingestion::{bool_of_word, parse_bool_str, same_text, trim_str, trimmed, IngestionError};
use crate::types::{DataSet, DataType, Field, Schema, Value};
use vstd::prelude::*;
use vstd::string::StringExecFns;

verus! {

/// What a spreadsheet cell holds, as the logic reads it.
#[derive(Debug, Clone, PartialEq, Eq)]
pub enum CellData {
    /// An empty cell.
    Empty,
    /// An integer, with the bit pattern of the same number as a float.
    Int { value: i64, as_f64_bits: u64 },
    /// A float: its bit pattern, its integer value when it has no fractional
    /// part, and whether it is non-zero.
    Float { bits: u64, whole: Option<i64>, nonzero: bool },
    /// Text.
    Str(String),
    /// A boolean.
    Bool(bool),
    /// A date, a time, a duration or an error value.
    Other,
}

/// A spreadsheet cell with the texts it shows.
#[derive(Debug, Clone, PartialEq, Eq)]
pub struct SheetCell {
    /// The cell's content.
    pub data: CellData,
    /// The text the cell gives as a header.
    pub header_text: String,
    /// The text the cell displays.
    pub display_text: String,
}

/// Whether a row has a non-empty cell.
pub open spec fn row_has_content(row: Seq<SheetCell>) -> bool {
    exists|k: int| 0 <= k < row.len() && !(row[k].data is Empty)
}

/// `rows[h]` is the first row with content.
pub open spec fn is_header_row(rows: Seq<Vec<SheetCell>>, h: int) -> bool {
    &&& 0 <= h < rows.len()
    &&& row_has_content(rows[h]@)
    &&& forall|q: int| 0 <= q < h ==> !row_has_content(#[trigger] rows[q]@)
}

/// The trimmed header texts of a row.
pub open spec fn header_names(row: Seq<SheetCell>) -> Seq<String> {
    row.map_values(|c: SheetCell| c.header_text)
}

/// The value that a cell gives in a column of type `dt`, or `None` when it
/// cannot be read as one; `parsed_float` gives what text reads as a float.
pub open spec fn sheet_value(dt: DataType, cell: SheetCell, parsed_float: Option<u64>) -> Option<Value> {
    let c = cell.data;
    match c {
        CellData::Empty => Some(Value::Null),
        _ => match dt {
            DataType::Utf8 => match c {
                CellData::Str(s) => Some(Value::Utf8(s)),
                _ => Some(Value::Utf8(cell.display_text)),
            },
            DataType::Bool => match c {
                CellData::Bool(b) => Some(Value::Bool(b)),
                CellData::Int { value, .. } => Some(Value::Bool(value != 0)),
                CellData::Float { nonzero, .. } => Some(Value::Bool(nonzero)),
                CellData::Str(s) => match bool_of_word(trimmed(s@)) {
                    Some(b) => Some(Value::Bool(b)),
                    None => None,
                },
                _ => None,
            },
            DataType::Int64 => match c {
                CellData::Int { value, .. } => Some(Value::Int64(value)),
                CellData::Float { whole, .. } => match whole {
                    Some(i) => Some(Value::Int64(i)),
                    None => None,
                },
                CellData::Str(s) => match parsed_i64(trimmed(s@)) {
                    Some(i) => Some(Value::Int64(i)),
                    None => None,
                },
                _ => None,
            },
            DataType::Float64 => match c {
                CellData::Float { bits, .. } => Some(Value::Float64(bits)),
                CellData::Int { as_f64_bits, .. } => Some(Value::Float64(as_f64_bits)),
                CellData::Str(_) => match parsed_float {
                    Some(b) => Some(Value::Float64(b)),
                    None => None,
                },
                _ => None,
            },
        },
    }
}

/// What the float parser makes of text `t`, when it reads it as a number.
pub open spec fn float_reading<P: Fn(&str) -> Result<u64, String>>(p: P, t: Seq<char>) -> Option<u64> {
    if exists|s: &str, b: u64| s@ == t && #[trigger] p.ensures((s,), Ok::<u64, String>(b)) {
        let (_, b) = choose|s: &str, b: u64| s@ == t && #[trigger] p.ensures((s,), Ok::<u64, String>(b));
        Some(b)
    } else {
        None
    }
}

/// The float reading of a text cell's trimmed text; `None` for other cells.
pub open spec fn cell_float_reading<P: Fn(&str) -> Result<u64, String>>(p: P, c: CellData) -> Option<u64> {
    match c {
        CellData::Str(s) => float_reading(p, trimmed(s@)),
        _ => None,
    }
}

/// Reads one cell for column `column` of type `data_type` at 1-based row `row`.
pub fn convert_cell<P: Fn(&str) -> Result<u64, String>>(
    row: usize,
    column: &String,
    data_type: DataType,
    cell: &SheetCell,
    parse_float: &P,
) -> (r: Result<Value, IngestionError>)
    requires
        is_pure_float_parser(*parse_float),
    ensures
        r is Ok <==> sheet_value(data_type, *cell, cell_float_reading(*parse_float, cell.data)) is Some,
        r is Ok ==> r->Ok_0 == sheet_value(data_type, *cell, cell_float_reading(*parse_float, cell.data))->0,
        r is Err ==> (r->Err_0 matches IngestionError::ParseError { row: rr, .. } && rr == row),
{
    let failure: String = match (&cell.data, data_type) {
        (CellData::Empty, _) => {
            return Ok(Value::Null);
        },
        (CellData::Str(s), DataType::Utf8) => {
            return Ok(Value::Utf8(s.clone()));
        },
        (_, DataType::Utf8) => {
            return Ok(Value::Utf8(cell.display_text.clone()));
        },
        (CellData::Bool(b), DataType::Bool) => {
            return Ok(Value::Bool(*b));
        },
        (CellData::Int { value, .. }, DataType::Bool) => {
            return Ok(Value::Bool(*value != 0));
        },
        (CellData::Float { nonzero, .. }, DataType::Bool) => {
            return Ok(Value::Bool(*nonzero));
        },
        (CellData::Str(s), DataType::Bool) => match parse_bool_str(s.as_str()) {
            Ok(b) => {
                return Ok(Value::Bool(b));
            },
            Err(m) => m,
        },
        (CellData::Int { value, .. }, DataType::Int64) => {
            return Ok(Value::Int64(*value));
        },
        (CellData::Float { whole, .. }, DataType::Int64) => match whole {
            Some(i) => {
                return Ok(Value::Int64(*i));
            },
            None => String::from_str("expected integer (got non-integer float)"),
        },
        (CellData::Str(s), DataType::Int64) => match parse_i64(trim_str(s.as_str())) {
            Ok(i) => {
                return Ok(Value::Int64(i));
            },
            Err(m) => m,
        },
        (CellData::Float { bits, .. }, DataType::Float64) => {
            return Ok(Value::Float64(*bits));
        },
        (CellData::Int { as_f64_bits, .. }, DataType::Float64) => {
            return Ok(Value::Float64(*as_f64_bits));
        },
        (CellData::Str(s), DataType::Float64) => {
            let t = trim_str(s.as_str());
            let parsed = parse_float(t);
            match parsed {
                Ok(b) => {
                    proof {
                        assert(parse_float.ensures((t,), Ok::<u64, String>(b)));
                        let (x, chosen) = choose|x: &str, c: u64|
                            x@ == trimmed(s@) && #[trigger] parse_float.ensures((x,), Ok::<u64, String>(c));
                        assert(Ok::<u64, String>(chosen) == Ok::<u64, String>(b));
                    }
                    return Ok(Value::Float64(b));
                },
                Err(m) => {
                    proof {
                        assert(parse_float.ensures((t,), Err::<u64, String>(m)));
                        assert forall|x: &str, b: u64| x@ == trimmed(s@) implies !#[trigger] parse_float.ensures(
                            (x,),
                            Ok::<u64, String>(b),
                        ) by {
                            if parse_float.ensures((x,), Ok::<u64, String>(b)) {
                                assert(Ok::<u64, String>(b) == Err::<u64, String>(m));
                            }
                        }
                    }
                    m
                },
            }
        },
        (_, DataType::Bool) => String::from_str("expected bool"),
        (_, DataType::Int64) => String::from_str("expected integer"),
        (_, DataType::Float64) => String::from_str("expected number"),
    };
    let raw = match &cell.data {
        CellData::Str(s) => s.clone(),
        _ => cell.display_text.clone(),
    };
    Err(IngestionError::ParseError { row, column: column.clone(), raw, message: failure })
}

/// `row[k]` is the first cell whose trimmed header text is `name`.
pub open spec fn is_first_named_cell(row: Seq<SheetCell>, name: Seq<char>, k: int) -> bool {
    &&& 0 <= k < row.len()
    &&& trimmed(row[k].header_text@) == name
    &&& forall|j: int| 0 <= j < k ==> trimmed(row[j].header_text@) != name
}

/// Some cell's trimmed header text is `name`.
pub open spec fn has_named_cell(row: Seq<SheetCell>, name: Seq<char>) -> bool {
    exists|k: int| 0 <= k < row.len() && trimmed(row[k].header_text@) == name
}

/// The value of cell `k` of a row in a column of type `dt`; a missing cell is empty.
pub open spec fn sheet_value_at<P: Fn(&str) -> Result<u64, String>>(
    dt: DataType,
    row: Seq<SheetCell>,
    k: int,
    p: P,
) -> Option<Value> {
    if 0 <= k < row.len() {
        sheet_value(dt, row[k], cell_float_reading(p, row[k].data))
    } else {
        Some(Value::Null)
    }
}

/// The error for a sheet whose header does not fit: the message names the sheet.
fn sheet_mismatch(sheet: &str, detail: &str) -> (r: IngestionError)
    ensures
        r is SchemaMismatch,
{
    let mut message = String::from_str("sheet '");
    message.append(sheet);
    message.append("': ");
    message.append(detail);
    IngestionError::SchemaMismatch { message }
}

/// Index of the first row with a non-empty cell.
fn find_header_row(rows: &Vec<Vec<SheetCell>>) -> (r: Option<usize>)
    ensures
        match r {
            Some(h) => is_header_row(rows@, h as int),
            None => forall|q: int| 0 <= q < rows@.len() ==> !row_has_content(#[trigger] rows@[q]@),
        },
{
    let mut h: usize = 0;
    while h < rows.len()
        invariant
            h <= rows@.len(),
            forall|q: int| 0 <= q < h ==> !row_has_content(#[trigger] rows@[q]@),
        decreases rows.len() - h,
    {
        let row = &rows[h];
        let mut k: usize = 0;
        while k < row.len()
            invariant
                h < rows@.len(),
                *row == rows@[h as int],
                k <= row@.len(),
                forall|q: int| 0 <= q < k ==> row@[q].data is Empty,
                forall|q: int| 0 <= q < h ==> !row_has_content(#[trigger] rows@[q]@),
            decreases row.len() - k,
        {
            match &row[k].data {
                CellData::Empty => {},
                _ => {
                    proof {
                        assert(!(rows@[h as int]@[k as int].data is Empty));
                    }
                    return Some(h);
                },
            }
            k += 1;
        }
        proof {
            assert(!row_has_content(rows@[h as int]@));
        }
        h += 1;
    }
    None
}

/// For each schema field, the position of the first header cell with its name.
fn sheet_projection(sheet: &str, header: &Vec<SheetCell>, fields: &Vec<Field>) -> (r: Result<Vec<usize>, IngestionError>)
    ensures
        r is Ok <==> forall|j: int| 0 <= j < fields@.len() ==> has_named_cell(header@, #[trigger] fields@[j].name@),
        r is Ok ==> r->Ok_0@.len() == fields@.len() && forall|j: int|
            0 <= j < fields@.len() ==> is_first_named_cell(header@, fields@[j].name@, #[trigger] r->Ok_0@[j] as int),
        r is Err ==> r->Err_0 is SchemaMismatch,
{
    let mut cols: Vec<usize> = Vec::new();
    let mut j: usize = 0;
    while j < fields.len()
        invariant
            j <= fields@.len(),
            cols@.len() == j,
            forall|q: int| 0 <= q < j ==> is_first_named_cell(header@, fields@[q].name@, #[trigger] cols@[q] as int),
        decreases fields.len() - j,
    {
        let name = &fields[j].name;
        let mut k: usize = 0;
        let mut found = false;
        while k < header.len() && !found
            invariant
                j < fields@.len(),
                k <= header@.len(),
                *name == fields@[j as int].name,
                found ==> k < header@.len() && trimmed(header@[k as int].header_text@) == name@,
                forall|q: int| 0 <= q < k ==> trimmed(header@[q].header_text@) != name@,
            decreases header.len() - k + if found { 0int } else { 1int },
        {
            if same_text(name, trim_str(header[k].header_text.as_str())) {
                found = true;
            } else {
                k += 1;
            }
        }
        if !found {
            proof {
                assert(!has_named_cell(header@, fields@[j as int].name@));
            }
            let mut detail = String::from_str("missing required column '");
            detail.append(name.as_str());
            detail.append("'. headers=[");
            let mut q: usize = 0;
            while q < header.len()
                decreases header.len() - q,
            {
                if q > 0 {
                    detail.append(", ");
                }
                detail.append("\"");
                detail.append(header[q].header_text.as_str());
                detail.append("\"");
                q += 1;
            }
            detail.append("]");
            return Err(sheet_mismatch(sheet, detail.as_str()));
        }
        proof {
            assert(is_first_named_cell(header@, fields@[j as int].name@, k as int));
        }
        cols.push(k);
        proof {
            assert forall|q: int| 0 <= q < j + 1 implies is_first_named_cell(
                header@,
                fields@[q].name@,
                #[trigger] cols@[q] as int,
            ) by {}
        }
        j += 1;
    }
    proof {
        assert forall|q: int| 0 <= q < fields@.len() implies has_named_cell(header@, #[trigger] fields@[q].name@) by {
            assert(is_first_named_cell(header@, fields@[q].name@, cols@[q] as int));
        }
    }
    Ok(cols)
}

proof fn lemma_first_named_cell_unique(row: Seq<SheetCell>, name: Seq<char>, a: int, b: int)
    requires
        is_first_named_cell(row, name, a),
        is_first_named_cell(row, name, b),
    ensures
        a == b,
{
    if a < b {
        assert(trimmed(row[a].header_text@) != name);
    } else if b < a {
        assert(trimmed(row[b].header_text@) != name);
    }
}

proof fn lemma_header_row_unique(rows: Seq<Vec<SheetCell>>, a: int, b: int)
    requires
        is_header_row(rows, a),
        is_header_row(rows, b),
    ensures
        a == b,
{
    if a < b {
        assert(!row_has_content(rows[a]@));
    } else if b < a {
        assert(!row_has_content(rows[b]@));
    }
}

/// Every data cell below header row `h` can be read by its field's type.
pub open spec fn sheet_cells_read<P: Fn(&str) -> Result<u64, String>>(
    rows: Seq<Vec<SheetCell>>,
    h: int,
    fields: Seq<Field>,
    p: P,
) -> bool {
    forall|i: int, j: int, k: int|
        h < i < rows.len() && 0 <= j < fields.len() && #[trigger] is_first_named_cell(rows[h]@, fields[j].name@, k)
            ==> #[trigger] sheet_value_at(fields[j].data_type, rows[i]@, k, p) is Some
}

/// `out` is what a sheet with these rows gives: below its header row, one row
/// per data row, each cell read by its field's type from the first header
/// cell with the field's name.
pub open spec fn sheet_read<P: Fn(&str) -> Result<u64, String>>(
    rows: Seq<Vec<SheetCell>>,
    fields: Seq<Field>,
    p: P,
    out: Seq<Vec<Value>>,
) -> bool {
    exists|h: int|
        #[trigger] is_header_row(rows, h) && (forall|j: int|
            0 <= j < fields.len() ==> has_named_cell(rows[h]@, #[trigger] fields[j].name@)) && sheet_cells_read(
            rows,
            h,
            fields,
            p,
        ) && out.len() == rows.len() - h - 1 && (forall|i: int| 0 <= i < out.len() ==> (#[trigger] out[i])@.len()
            == fields.len()) && (forall|i: int, j: int, k: int|
            0 <= i < out.len() && 0 <= j < fields.len() && #[trigger] is_first_named_cell(rows[h]@, fields[j].name@, k)
                ==> sheet_value_at(fields[j].data_type, rows[h + 1 + i]@, k, p) == Some(#[trigger] out[i]@[j]))
}

/// Reads the data rows of a sheet: the first row with a non-empty cell is the
/// header, every schema field must name one of its cells (compared trimmed),
/// and each row below it gives one table row. Rows are numbered from 1 in
/// errors and columns are labelled `sheet:field`.
pub fn ingest_sheet_rows<P: Fn(&str) -> Result<u64, String>>(
    sheet: &str,
    rows: &Vec<Vec<SheetCell>>,
    schema: &Schema,
    parse_float: &P,
) -> (r: Result<Vec<Vec<Value>>, IngestionError>)
    requires
        is_pure_float_parser(*parse_float),
        rows@.len() < usize::MAX,
    ensures
        (forall|q: int| 0 <= q < rows@.len() ==> !row_has_content(#[trigger] rows@[q]@)) ==> (r matches Err(e)
            && e is SchemaMismatch),
        forall|h: int| #[trigger]
            is_header_row(rows@, h) ==> {
                &&& (r is Ok <==> (forall|j: int|
                    0 <= j < schema.fields@.len() ==> has_named_cell(rows@[h]@, #[trigger] schema.fields@[j].name@))
                    && sheet_cells_read(rows@, h, schema.fields@, *parse_float))
                &&& r matches Ok(out) ==> {
                    &&& out@.len() == rows@.len() - h - 1
                    &&& forall|i: int| 0 <= i < out@.len() ==> (#[trigger] out@[i])@.len() == schema.fields@.len()
                    &&& forall|i: int, j: int, k: int|
                        0 <= i < out@.len() && 0 <= j < schema.fields@.len() && #[trigger] is_first_named_cell(
                            rows@[h]@,
                            schema.fields@[j].name@,
                            k,
                        ) ==> sheet_value_at(schema.fields@[j].data_type, rows@[h + 1 + i]@, k, *parse_float)
                            == Some(#[trigger] out@[i]@[j])
                }
            },
        r matches Ok(out) ==> sheet_read(rows@, schema.fields@, *parse_float, out@),
{
    let ghost fields = schema.fields@;
    let h = match find_header_row(rows) {
        Some(h) => h,
        None => {
            return Err(sheet_mismatch(sheet, "sheet has no non-empty rows (no header row found)"));
        },
    };
    proof {
        assert forall|g: int| #[trigger] is_header_row(rows@, g) implies g == h as int by {
            lemma_header_row_unique(rows@, g, h as int);
        }
    }
    let header = &rows[h];
    let cols = match sheet_projection(sheet, header, &schema.fields) {
        Ok(c) => c,
        Err(e) => {
            return Err(e);
        },
    };
    proof {
        assert forall|j: int, k: int|
            0 <= j < fields.len() && #[trigger] is_first_named_cell(header@, fields[j].name@, k) implies k
            == cols@[j] as int by {
            lemma_first_named_cell_unique(header@, fields[j].name@, k, cols@[j] as int);
        }
    }
    let mut out: Vec<Vec<Value>> = Vec::new();
    let mut i: usize = h + 1;
    while i < rows.len()
        invariant
            h < rows@.len() < usize::MAX,
            h + 1 <= i <= rows@.len(),
            is_header_row(rows@, h as int),
            is_pure_float_parser(*parse_float),
            fields == schema.fields@,
            *header == rows@[h as int],
            cols@.len() == fields.len(),
            forall|j: int| 0 <= j < fields.len() ==> is_first_named_cell(header@, fields[j].name@, #[trigger] cols@[j] as int),
            out@.len() == i - h - 1,
            forall|q: int| 0 <= q < out@.len() ==> (#[trigger] out@[q])@.len() == fields.len(),
            forall|q: int, j: int|
                0 <= q < out@.len() && 0 <= j < fields.len() ==> sheet_value_at(
                    fields[j].data_type,
                    rows@[h + 1 + q]@,
                    cols@[j] as int,
                    *parse_float,
                ) == Some(#[trigger] out@[q]@[j]),
        decreases rows.len() - i,
    {
        let row = &rows[i];
        let mut values: Vec<Value> = Vec::new();
        let mut j: usize = 0;
        while j < schema.fields.len()
            invariant
                h < i < rows@.len() < usize::MAX,
                is_header_row(rows@, h as int),
                *row == rows@[i as int],
                is_pure_float_parser(*parse_float),
                fields == schema.fields@,
                *header == rows@[h as int],
                cols@.len() == fields.len(),
                forall|q: int| 0 <= q < fields.len() ==> is_first_named_cell(header@, fields[q].name@, #[trigger] cols@[q] as int),
                j <= fields.len(),
                values@.len() == j,
                forall|q: int| 0 <= q < j ==> sheet_value_at(
                    fields[q].data_type,
                    rows@[i as int]@,
                    cols@[q] as int,
                    *parse_float,
                ) == Some(#[trigger] values@[q]),
            decreases fields.len() - j,
        {
            let field = &schema.fields[j];
            let col = cols[j];
            let mut label = String::from_str(sheet);
            label.append(":");
            label.append(field.name.as_str());
            let converted = if col < row.len() {
                convert_cell(i + 1, &label, field.data_type, &row[col], parse_float)
            } else {
                Ok(Value::Null)
            };
            match converted {
                Ok(v) => {
                    values.push(v);
                },
                Err(e) => {
                    proof {
                        assert(sheet_value_at(fields[j as int].data_type, rows@[i as int]@, cols@[j as int] as int, *parse_float) is None);
                        assert(is_first_named_cell(rows@[h as int]@, fields[j as int].name@, cols@[j as int] as int));
                        assert(!sheet_cells_read(rows@, h as int, fields, *parse_float));
                        assert forall|g: int| #[trigger] is_header_row(rows@, g) implies g == h as int by {
                            lemma_header_row_unique(rows@, g, h as int);
                        }
                    }
                    return Err(e);
                },
            }
            j += 1;
        }
        out.push(values);
        proof {
            assert forall|q: int, jj: int|
                0 <= q < out@.len() && 0 <= jj < fields.len() implies sheet_value_at(
                    fields[jj].data_type,
                    rows@[h + 1 + q]@,
                    cols@[jj] as int,
                    *parse_float,
                ) == Some(#[trigger] out@[q]@[jj]) by {
                if q == out@.len() - 1 {
                    assert(h + 1 + q == i);
                }
            }
        }
        i += 1;
    }
    proof {
        assert forall|ii: int, j: int, k: int|
            h < ii < rows@.len() && 0 <= j < fields.len() && #[trigger] is_first_named_cell(rows@[h as int]@, fields[j].name@, k)
                implies #[trigger] sheet_value_at(fields[j].data_type, rows@[ii]@, k, *parse_float) is Some by {
            assert(k == cols@[j] as int);
            let q = ii - h - 1;
            assert(rows@[h + 1 + q] == rows@[ii]);
            assert(sheet_value_at(fields[j].data_type, rows@[h + 1 + q]@, cols@[j] as int, *parse_float) == Some(out@[q]@[j]));
        }
        assert forall|j: int| 0 <= j < fields.len() implies has_named_cell(rows@[h as int]@, #[trigger] fields[j].name@) by {
            assert(is_first_named_cell(header@, fields[j].name@, cols@[j] as int));
        }
        assert forall|g: int| #[trigger] is_header_row(rows@, g) implies g == h as int by {
            lemma_header_row_unique(rows@, g, h as int);
        }
        assert forall|ii: int, j: int, k: int|
            0 <= ii < out@.len() && 0 <= j < fields.len() && #[trigger] is_first_named_cell(rows@[h as int]@, fields[j].name@, k)
                implies sheet_value_at(fields[j].data_type, rows@[h + 1 + ii]@, k, *parse_float) == Some(#[trigger] out@[ii]@[j]) by {
            lemma_first_named_cell_unique(header@, fields[j].name@, k, cols@[j] as int);
        }
        assert(is_header_row(rows@, h as int));
    }
    Ok(out)
}

/// The rows of the parts, one part after another.
pub open spec fn concat_parts(parts: Seq<Seq<Vec<Value>>>) -> Seq<Vec<Value>>
    decreases parts.len(),
{
    if parts.len() == 0 {
        Seq::empty()
    } else {
        concat_parts(parts.drop_last()) + parts.last()
    }
}

/// The cells of one sheet of a workbook.
#[derive(Debug, Clone)]
pub struct SheetRows {
    /// The sheet's name.
    pub name: String,
    /// The sheet's rows of cells.
    pub rows: Vec<Vec<SheetCell>>,
}

/// Builds one table from the sheets of a workbook, the rows of each sheet
/// after those of the sheets before it; a workbook without sheets is an error.
pub fn ingest_workbook_sheets<P: Fn(&str) -> Result<u64, String>>(
    sheets: &Vec<SheetRows>,
    schema: &Schema,
    parse_float: P,
) -> (r: Result<DataSet, IngestionError>)
    requires
        is_pure_float_parser(parse_float),
        forall|i: int| 0 <= i < sheets@.len() ==> (#[trigger] sheets@[i]).rows@.len() < usize::MAX,
    ensures
        sheets@.len() == 0 ==> (r matches Err(e) && e is SchemaMismatch),
        r matches Ok(ds) ==> {
            &&& ds.schema.fields@ == schema.fields@
            &&& exists|parts: Seq<Seq<Vec<Value>>>|
                parts.len() == sheets@.len() && ds.rows@ == concat_parts(parts) && forall|i: int|
                    0 <= i < parts.len() ==> sheet_read(
                        (#[trigger] sheets@[i]).rows@,
                        schema.fields@,
                        parse_float,
                        parts[i],
                    )
        },
{
    if sheets.len() == 0 {
        return Err(IngestionError::SchemaMismatch { message: String::from_str("workbook has no sheets") });
    }
    let mut all: Vec<Vec<Value>> = Vec::new();
    let ghost mut parts: Seq<Seq<Vec<Value>>> = Seq::empty();
    let mut i: usize = 0;
    while i < sheets.len()
        invariant
            i <= sheets@.len(),
            is_pure_float_parser(parse_float),
            forall|q: int| 0 <= q < sheets@.len() ==> (#[trigger] sheets@[q]).rows@.len() < usize::MAX,
            parts.len() == i,
            all@ == concat_parts(parts),
            forall|q: int|
                0 <= q < i ==> sheet_read((#[trigger] sheets@[q]).rows@, schema.fields@, parse_float, parts[q]),
        decreases sheets.len() - i,
    {
        let sheet = &sheets[i];
        let read = ingest_sheet_rows(sheet.name.as_str(), &sheet.rows, schema, &parse_float);
        let mut part = match read {
            Ok(p) => p,
            Err(e) => {
                return Err(e);
            },
        };
        proof {
            let next = parts.push(part@);
            assert(next.drop_last() =~= parts);
            parts = next;
        }
        all.append(&mut part);
        i += 1;
    }
    Ok(DataSet { schema: schema.clone(), rows: all })
}

} // verus!
