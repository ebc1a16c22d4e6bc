//! Turning the header and records of a CSV file into a typed table.
use crate::ingestion::{bool_of_word, parse_bool, trim_str, trimmed, IngestionError};
use crate::types::{DataSet, DataType, Field, Schema, Value};
use vstd::prelude::*;
use vstd::string::StringExecFns;

verus! {

/// `headers[k]` is the first header equal to `name`.
pub open spec fn is_first_header(headers: Seq<String>, name: Seq<char>, k: int) -> bool {
    &&& 0 <= k < headers.len()
    &&& headers[k]@ == name
    &&& forall|j: int| 0 <= j < k ==> headers[j]@ != name
}

/// Some header equals `name`.
pub open spec fn has_header(headers: Seq<String>, name: Seq<char>) -> bool {
    exists|k: int| 0 <= k < headers.len() && headers[k]@ == name
}

/// The text is one or more ASCII digits.
pub open spec fn all_digits(d: Seq<char>) -> bool {
    d.len() > 0 && forall|i: int| 0 <= i < d.len() ==> '0' <= #[trigger] d[i] && d[i] <= '9'
}

/// The number that a string of ASCII digits spells in decimal.
pub open spec fn decimal_value(d: Seq<char>) -> int
    decreases d.len(),
{
    if d.len() == 0 {
        0
    } else {
        decimal_value(d.drop_last()) * 10 + ((d.last() as u32) - ('0' as u32))
    }
}

/// What `str::parse::<i64>` gives for the text: an optional `+` or `-` sign,
/// then decimal digits whose value fits in an `i64`.
pub open spec fn parsed_i64(s: Seq<char>) -> Option<i64> {
    let negative = s.len() > 0 && s[0] == '-';
    let digits = if s.len() > 0 && (s[0] == '-' || s[0] == '+') {
        s.drop_first()
    } else {
        s
    };
    let v = if negative {
        -decimal_value(digits)
    } else {
        decimal_value(digits)
    };
    if all_digits(digits) && i64::MIN <= v && v <= i64::MAX {
        Some(v as i64)
    } else {
        None
    }
}

/// Relies on std's `str::parse::<i64>`: the integer the text spells, or its error message.
#[verifier::external_body]
pub(crate) fn parse_i64(s: &str) -> (r: Result<i64, String>)
    ensures
        r is Ok <==> parsed_i64(s@) is Some,
        r is Ok ==> r->Ok_0 == parsed_i64(s@)->0,
{
    s.parse::<i64>().map_err(|e| e.to_string())
}

/// A float parser is pure when it accepts every text and its result depends
/// on the characters of the text alone.
pub open spec fn is_pure_float_parser<P: Fn(&str) -> Result<u64, String>>(p: P) -> bool {
    &&& forall|s: &str| #[trigger] p.requires((s,))
    &&& forall|s: &str, t: &str, a: Result<u64, String>, b: Result<u64, String>|
        s@ == t@ && #[trigger] p.ensures((s,), a) && #[trigger] p.ensures((t,), b) ==> a == b
}

/// The raw text of column `col` of a record; missing cells read as empty.
pub open spec fn raw_cell(record: Seq<String>, col: int) -> Seq<char> {
    if 0 <= col < record.len() {
        record[col]@
    } else {
        Seq::empty()
    }
}

/// `v` is what the raw text `raw` gives in a column of type `dt`: empty text
/// after trimming is `Null`, other text is parsed by the type.
pub open spec fn cell_parses_to<P: Fn(&str) -> Result<u64, String>>(
    dt: DataType,
    raw: Seq<char>,
    p: P,
    v: Value,
) -> bool {
    let t = trimmed(raw);
    if t.len() == 0 {
        v == Value::Null
    } else {
        match dt {
            DataType::Utf8 => v matches Value::Utf8(s) && s@ == t,
            DataType::Int64 => parsed_i64(t) is Some && v == Value::Int64(parsed_i64(t)->0),
            DataType::Bool => bool_of_word(t) is Some && v == Value::Bool(bool_of_word(t)->0),
            DataType::Float64 => exists|s: &str, b: u64|
                s@ == t && #[trigger] p.ensures((s,), Ok::<u64, String>(b)) && v == Value::Float64(b),
        }
    }
}

/// The raw text `raw` cannot be parsed as a value of type `dt`.
pub open spec fn cell_fails<P: Fn(&str) -> Result<u64, String>>(dt: DataType, raw: Seq<char>, p: P) -> bool {
    let t = trimmed(raw);
    &&& t.len() != 0
    &&& match dt {
        DataType::Utf8 => false,
        DataType::Int64 => parsed_i64(t) is None,
        DataType::Bool => bool_of_word(t) is None,
        DataType::Float64 => exists|s: &str, m: String|
            s@ == t && #[trigger] p.ensures((s,), Err::<u64, String>(m)),
    }
}

/// Parses one cell of a record at 1-based file row `row`.
pub fn parse_typed_value<P: Fn(&str) -> Result<u64, String>>(
    row: usize,
    column: &String,
    data_type: DataType,
    raw: &str,
    parse_float: &P,
) -> (r: Result<Value, IngestionError>)
    requires
        is_pure_float_parser(*parse_float),
    ensures
        r is Ok ==> cell_parses_to(data_type, raw@, *parse_float, r->Ok_0),
        r is Ok ==> !cell_fails(data_type, raw@, *parse_float),
        r is Err ==> cell_fails(data_type, raw@, *parse_float),
        r is Err ==> (r->Err_0 matches IngestionError::ParseError { row: rr, .. } && rr == row),
        !cell_fails(data_type, raw@, *parse_float) ==> r is Ok,
{
    let t = trim_str(raw);
    if t.is_empty() {
        return Ok(Value::Null);
    }
    let failure = match data_type {
        DataType::Utf8 => {
            return Ok(Value::Utf8(t.to_owned()));
        },
        DataType::Int64 => match parse_i64(t) {
            Ok(n) => {
                return Ok(Value::Int64(n));
            },
            Err(m) => m,
        },
        DataType::Float64 => {
            let parsed = parse_float(t);
            match parsed {
                Ok(b) => {
                    return Ok(Value::Float64(b));
                },
                Err(m) => {
                    proof {
                        assert(parse_float.ensures((t,), Err::<u64, String>(m)));
                    }
                    m
                },
            }
        },
        DataType::Bool => match parse_bool(t) {
            Ok(b) => {
                return Ok(Value::Bool(b));
            },
            Err(m) => m,
        },
    };
    Err(IngestionError::ParseError { row, column: column.clone(), raw: raw.to_owned(), message: failure })
}

/// `"h1", "h2", ...` between brackets, for messages.
fn quoted_list(items: &Vec<String>) -> String {
    let mut out = String::from_str("[");
    let mut i: usize = 0;
    while i < items.len()
        decreases items.len() - i,
    {
        if i > 0 {
            out.append(", ");
        }
        out.append("\"");
        out.append(items[i].as_str());
        out.append("\"");
        i += 1;
    }
    out.append("]");
    out
}

/// For each schema field, the position of the first header with its name.
pub fn header_projection(headers: &Vec<String>, fields: &Vec<Field>) -> (r: Result<Vec<usize>, IngestionError>)
    ensures
        r is Ok <==> forall|j: int| 0 <= j < fields@.len() ==> has_header(headers@, #[trigger] fields@[j].name@),
        r is Ok ==> r->Ok_0@.len() == fields@.len() && forall|j: int|
            0 <= j < fields@.len() ==> is_first_header(headers@, fields@[j].name@, #[trigger] r->Ok_0@[j] as int),
        r is Err ==> r->Err_0 is SchemaMismatch,
{
    let mut cols: Vec<usize> = Vec::new();
    let mut j: usize = 0;
    while j < fields.len()
        invariant
            j <= fields@.len(),
            cols@.len() == j,
            forall|q: int| 0 <= q < j ==> is_first_header(headers@, fields@[q].name@, #[trigger] cols@[q] as int),
        decreases fields.len() - j,
    {
        let name = &fields[j].name;
        let mut k: usize = 0;
        let mut found = false;
        while k < headers.len() && !found
            invariant
                j < fields@.len(),
                k <= headers@.len(),
                *name == fields@[j as int].name,
                found ==> k < headers@.len() && headers@[k as int]@ == name@,
                forall|q: int| 0 <= q < k ==> headers@[q]@ != name@,
            decreases headers.len() - k + if found { 0int } else { 1int },
        {
            if headers[k] == *name {
                found = true;
            } else {
                k += 1;
            }
        }
        if !found {
            proof {
                assert(!has_header(headers@, fields@[j as int].name@));
            }
            let mut message = String::from_str("missing required column '");
            message.append(name.as_str());
            message.append("'. headers=");
            let listed = quoted_list(headers);
            message.append(listed.as_str());
            return Err(IngestionError::SchemaMismatch { message });
        }
        proof {
            assert(is_first_header(headers@, fields@[j as int].name@, k as int));
        }
        cols.push(k);
        proof {
            assert forall|q: int| 0 <= q < j + 1 implies is_first_header(
                headers@,
                fields@[q].name@,
                #[trigger] cols@[q] as int,
            ) by {}
        }
        j += 1;
    }
    proof {
        assert forall|q: int| 0 <= q < fields@.len() implies has_header(headers@, #[trigger] fields@[q].name@) by {
            assert(is_first_header(headers@, fields@[q].name@, cols@[q] as int));
        }
    }
    Ok(cols)
}

proof fn lemma_first_header_unique(headers: Seq<String>, name: Seq<char>, a: int, b: int)
    requires
        is_first_header(headers, name, a),
        is_first_header(headers, name, b),
    ensures
        a == b,
{
    if a < b {
        assert(headers[a]@ != name);
    } else if b < a {
        assert(headers[b]@ != name);
    }
}

/// Every cell of every record can be parsed by its field's type, reading each
/// field from the first header with its name.
pub open spec fn all_cells_parse<P: Fn(&str) -> Result<u64, String>>(
    headers: Seq<String>,
    records: Seq<Vec<String>>,
    fields: Seq<Field>,
    p: P,
) -> bool {
    forall|i: int, j: int, k: int|
        0 <= i < records.len() && 0 <= j < fields.len() && #[trigger] is_first_header(headers, fields[j].name@, k)
            ==> !cell_fails(fields[j].data_type, raw_cell(#[trigger] records[i]@, k), p)
}

/// Builds a table from a CSV header and its records. Every schema field must
/// name a header (the columns may come in any order); each cell is parsed by
/// its field's type, `Float64` text through `parse_float`. Row numbers in
/// errors count the header as row 1.
pub fn ingest_csv_records<P: Fn(&str) -> Result<u64, String>>(
    headers: &Vec<String>,
    records: &Vec<Vec<String>>,
    schema: &Schema,
    parse_float: P,
) -> (r: Result<DataSet, IngestionError>)
    requires
        is_pure_float_parser(parse_float),
        records@.len() + 2 <= usize::MAX,
    ensures
        !(forall|j: int| 0 <= j < schema.fields@.len() ==> has_header(headers@, #[trigger] schema.fields@[j].name@))
            ==> (r matches Err(e) && e is SchemaMismatch),
        r is Ok <==> (forall|j: int|
            0 <= j < schema.fields@.len() ==> has_header(headers@, #[trigger] schema.fields@[j].name@))
            && all_cells_parse(headers@, records@, schema.fields@, parse_float),
        r matches Ok(ds) ==> {
            &&& ds.schema.fields@ == schema.fields@
            &&& ds.rows@.len() == records@.len()
            &&& forall|i: int| 0 <= i < records@.len() ==> (#[trigger] ds.rows@[i])@.len() == schema.fields@.len()
            &&& forall|i: int, j: int, k: int|
                0 <= i < records@.len() && 0 <= j < schema.fields@.len() && #[trigger] is_first_header(
                    headers@,
                    schema.fields@[j].name@,
                    k,
                ) ==> cell_parses_to(
                    schema.fields@[j].data_type,
                    raw_cell(records@[i]@, k),
                    parse_float,
                    #[trigger] ds.rows@[i]@[j],
                )
        },
{
    let cols = match header_projection(headers, &schema.fields) {
        Ok(c) => c,
        Err(e) => {
            return Err(e);
        },
    };
    let ghost fields = schema.fields@;
    let mut rows: Vec<Vec<Value>> = Vec::new();
    let mut i: usize = 0;
    while i < records.len()
        invariant
            i <= records@.len(),
            records@.len() + 2 <= usize::MAX,
            is_pure_float_parser(parse_float),
            fields == schema.fields@,
            cols@.len() == fields.len(),
            forall|j: int| 0 <= j < fields.len() ==> is_first_header(headers@, fields[j].name@, #[trigger] cols@[j] as int),
            rows@.len() == i,
            forall|q: int| 0 <= q < i ==> (#[trigger] rows@[q])@.len() == fields.len(),
            forall|q: int, j: int|
                0 <= q < i && 0 <= j < fields.len() ==> cell_parses_to(
                    fields[j].data_type,
                    raw_cell(records@[q]@, cols@[j] as int),
                    parse_float,
                    #[trigger] rows@[q]@[j],
                ),
            forall|q: int, j: int|
                0 <= q < i && 0 <= j < fields.len() ==> !cell_fails(
                    fields[j].data_type,
                    #[trigger] raw_cell(records@[q]@, cols@[j] as int),
                    parse_float,
                ),
        decreases records.len() - i,
    {
        let record = &records[i];
        let mut row: Vec<Value> = Vec::new();
        let mut j: usize = 0;
        while j < schema.fields.len()
            invariant
                i < records@.len(),
                records@.len() + 2 <= usize::MAX,
                *record == records@[i as int],
                is_pure_float_parser(parse_float),
                fields == schema.fields@,
                cols@.len() == fields.len(),
                forall|q: int| 0 <= q < fields.len() ==> is_first_header(headers@, fields[q].name@, #[trigger] cols@[q] as int),
                j <= fields.len(),
                row@.len() == j,
                forall|q: int| 0 <= q < j ==> cell_parses_to(
                    fields[q].data_type,
                    raw_cell(records@[i as int]@, cols@[q] as int),
                    parse_float,
                    #[trigger] row@[q],
                ),
                forall|q: int| 0 <= q < j ==> !cell_fails(
                    #[trigger] fields[q].data_type,
                    raw_cell(records@[i as int]@, cols@[q] as int),
                    parse_float,
                ),
            decreases fields.len() - j,
        {
            let col = cols[j];
            let field = &schema.fields[j];
            let raw: &str = if col < record.len() {
                record[col].as_str()
            } else {
                ""
            };
            proof {
                if col < record.len() {
                    assert(raw@ == raw_cell(records@[i as int]@, col as int));
                } else {
                    reveal_strlit("");
                    assert(raw@ =~= raw_cell(records@[i as int]@, col as int));
                }
            }
            match parse_typed_value(i + 2, &field.name, field.data_type, raw, &parse_float) {
                Ok(v) => {
                    row.push(v);
                },
                Err(e) => {
                    proof {
                        assert(cell_fails(fields[j as int].data_type, raw_cell(records@[i as int]@, cols@[j as int] as int), parse_float));
                        assert(is_first_header(headers@, fields[j as int].name@, cols@[j as int] as int));
                        assert(!all_cells_parse(headers@, records@, schema.fields@, parse_float));
                        assert forall|q: int| 0 <= q < fields.len() implies has_header(headers@, #[trigger] fields[q].name@) by {
                            assert(is_first_header(headers@, fields[q].name@, cols@[q] as int));
                        }
                    }
                    return Err(e);
                },
            }
            j += 1;
        }
        rows.push(row);
        i += 1;
    }
    proof {
        assert forall|j: int, k: int|
            0 <= j < fields.len() && #[trigger] is_first_header(headers@, fields[j].name@, k)
                implies k == cols@[j] as int by {
            lemma_first_header_unique(headers@, fields[j].name@, k, cols@[j] as int);
        }
        assert forall|j: int| 0 <= j < fields.len() implies has_header(headers@, #[trigger] fields[j].name@) by {
            assert(is_first_header(headers@, fields[j].name@, cols@[j] as int));
        }
    }
    Ok(DataSet { schema: schema.clone(), rows })
}

} // verus!
