//! Turning the rows of a Parquet file into a typed table.
use crate::ingestion::IngestionError;
use crate::types::{DataSet, DataType, Field, Schema, Value};
use vstd::prelude::*;
use vstd::string::StringExecFns;

verus! {

/// What a Parquet field holds, as the logic reads it.
#[derive(Debug, Clone, PartialEq, Eq)]
pub enum ParquetCell {
    /// A null.
    Null,
    /// A boolean.
    Bool(bool),
    /// A signed or an unsigned integer of at most 32 bits, or a signed 64-bit one.
    Int(i64),
    /// An unsigned 64-bit integer.
    ULong(u64),
    /// A 32- or 64-bit float, as the bit pattern of its `f64` value.
    Float(u64),
    /// A string.
    Str(String),
    /// Any other kind of value.
    Other,
}

/// A named field of a Parquet row, with the text it displays.
#[derive(Debug, Clone, PartialEq, Eq)]
pub struct ParquetField {
    /// The column name.
    pub name: String,
    /// The value.
    pub cell: ParquetCell,
    /// The value as displayed.
    pub text: String,
}

/// The table value of a Parquet value in a column of type `dt`, if it has one.
pub open spec fn parquet_value(dt: DataType, c: ParquetCell) -> Option<Value> {
    match c {
        ParquetCell::Null => Some(Value::Null),
        ParquetCell::Str(s) => if dt == DataType::Utf8 {
            Some(Value::Utf8(s))
        } else {
            None
        },
        ParquetCell::Bool(b) => if dt == DataType::Bool {
            Some(Value::Bool(b))
        } else {
            None
        },
        ParquetCell::Int(i) => if dt == DataType::Int64 {
            Some(Value::Int64(i))
        } else {
            None
        },
        ParquetCell::ULong(u) => if dt == DataType::Int64 && u <= i64::MAX {
            Some(Value::Int64(u as i64))
        } else {
            None
        },
        ParquetCell::Float(b) => if dt == DataType::Float64 {
            Some(Value::Float64(b))
        } else {
            None
        },
        ParquetCell::Other => None,
    }
}

/// Converts one Parquet field for column `column` of type `data_type` at 1-based row `row`.
pub fn convert_parquet_field(row: usize, column: &String, data_type: DataType, f: &ParquetField) -> (r: Result<
    Value,
    IngestionError,
>)
    ensures
        r is Ok <==> parquet_value(data_type, f.cell) is Some,
        r is Ok ==> r->Ok_0 == parquet_value(data_type, f.cell)->0,
        r is Err ==> (r->Err_0 matches IngestionError::ParseError { row: rr, .. } && rr == row),
{
    let message = match (&f.cell, data_type) {
        (ParquetCell::Null, _) => {
            return Ok(Value::Null);
        },
        (ParquetCell::Str(s), DataType::Utf8) => {
            return Ok(Value::Utf8(s.clone()));
        },
        (ParquetCell::Bool(b), DataType::Bool) => {
            return Ok(Value::Bool(*b));
        },
        (ParquetCell::Int(i), DataType::Int64) => {
            return Ok(Value::Int64(*i));
        },
        (ParquetCell::ULong(u), DataType::Int64) => {
            if *u <= i64::MAX as u64 {
                return Ok(Value::Int64(*u as i64));
            }
            String::from_str("u64 out of range for i64")
        },
        (ParquetCell::Float(b), DataType::Float64) => {
            return Ok(Value::Float64(*b));
        },
        (_, DataType::Utf8) => String::from_str("expected string"),
        (_, DataType::Bool) => String::from_str("expected bool"),
        (_, DataType::Int64) => String::from_str("expected integer"),
        (_, DataType::Float64) => String::from_str("expected number"),
    };
    Err(IngestionError::ParseError { row, column: column.clone(), raw: f.text.clone(), message })
}

/// The first field of `row` named `name`.
pub open spec fn is_first_field(row: Seq<ParquetField>, name: Seq<char>, k: int) -> bool {
    &&& 0 <= k < row.len()
    &&& row[k].name@ == name
    &&& forall|j: int| 0 <= j < k ==> row[j].name@ != name
}

/// The value of the first field of `row` named after schema field `f`.
pub open spec fn row_value(row: Seq<ParquetField>, f: Field) -> Option<Value> {
    if exists|k: int| is_first_field(row, f.name@, k) {
        let k = choose|k: int| is_first_field(row, f.name@, k);
        parquet_value(f.data_type, row[k].cell)
    } else {
        None
    }
}

proof fn lemma_first_field_unique(row: Seq<ParquetField>, name: Seq<char>, a: int, b: int)
    requires
        is_first_field(row, name, a),
        is_first_field(row, name, b),
    ensures
        a == b,
{
    if a < b {
        assert(row[a].name@ != name);
    } else if b < a {
        assert(row[b].name@ != name);
    }
}

/// The field of `row` named `name`, the first one if several are.
fn find_field<'a>(row: &'a Vec<ParquetField>, name: &String) -> (r: Option<&'a ParquetField>)
    ensures
        match r {
            Some(f) => exists|k: int| is_first_field(row@, name@, k) && row@[k] == *f,
            None => forall|k: int| 0 <= k < row@.len() ==> row@[k].name@ != name@,
        },
{
    let mut k: usize = 0;
    while k < row.len()
        invariant
            k <= row@.len(),
            forall|j: int| 0 <= j < k ==> row@[j].name@ != name@,
        decreases row.len() - k,
    {
        if row[k].name == *name {
            proof {
                assert(is_first_field(row@, name@, k as int));
            }
            return Some(&row[k]);
        }
        k += 1;
    }
    None
}

/// `name` is one of `columns`.
pub open spec fn is_column(columns: Seq<String>, name: Seq<char>) -> bool {
    exists|k: int| 0 <= k < columns.len() && columns[k]@ == name
}

/// Whether `name` is one of `columns`.
fn has_column(columns: &Vec<String>, name: &String) -> (r: bool)
    ensures
        r == is_column(columns@, name@),
{
    let mut k: usize = 0;
    while k < columns.len()
        invariant
            k <= columns@.len(),
            forall|j: int| 0 <= j < k ==> columns@[j]@ != name@,
        decreases columns.len() - k,
    {
        if columns[k] == *name {
            return true;
        }
        k += 1;
    }
    false
}

/// Every row has every field in a form its column accepts.
pub open spec fn parquet_rows_ok(rows: Seq<Vec<ParquetField>>, fields: Seq<Field>) -> bool {
    forall|i: int, j: int|
        0 <= i < rows.len() && 0 <= j < fields.len() ==> #[trigger] row_value(rows[i]@, fields[j]) is Some
}

/// Builds a table from the rows of a Parquet file whose leaf columns are
/// `columns`: every schema field must be a column, and row `i` is made of the
/// fields of Parquet row `i` with the schema fields' names. Rows are numbered
/// from 1 in errors.
pub fn ingest_parquet_rows(columns: &Vec<String>, rows: &Vec<Vec<ParquetField>>, schema: &Schema) -> (r: Result<
    DataSet,
    IngestionError,
>)
    requires
        rows@.len() < usize::MAX,
    ensures
        !(forall|j: int|
            0 <= j < schema.fields@.len() ==> is_column(columns@, (#[trigger] schema.fields@[j]).name@)) ==> (r matches Err(e)
            && e is SchemaMismatch),
        r is Ok <==> (forall|j: int|
            0 <= j < schema.fields@.len() ==> is_column(columns@, (#[trigger] schema.fields@[j]).name@)) && parquet_rows_ok(
            rows@,
            schema.fields@,
        ),
        r matches Ok(ds) ==> {
            &&& ds.schema.fields@ == schema.fields@
            &&& ds.rows@.len() == rows@.len()
            &&& forall|i: int| 0 <= i < rows@.len() ==> (#[trigger] ds.rows@[i])@.len() == schema.fields@.len()
            &&& forall|i: int, j: int|
                0 <= i < rows@.len() && 0 <= j < schema.fields@.len() ==> row_value(rows@[i]@, schema.fields@[j])
                    == Some(#[trigger] ds.rows@[i]@[j])
        },
{
    let ghost fields = schema.fields@;
    let mut j: usize = 0;
    while j < schema.fields.len()
        invariant
            j <= fields.len(),
            fields == schema.fields@,
            forall|q: int|
                0 <= q < j ==> is_column(columns@, (#[trigger] fields[q]).name@),
        decreases fields.len() - j,
    {
        if !has_column(columns, &schema.fields[j].name) {
            let mut message = String::from_str("missing required column '");
            message.append(schema.fields[j].name.as_str());
            message.append("'");
            return Err(IngestionError::SchemaMismatch { message });
        }
        j += 1;
    }
    let mut out: Vec<Vec<Value>> = Vec::new();
    let mut i: usize = 0;
    while i < rows.len()
        invariant
            i <= rows@.len() < usize::MAX,
            fields == schema.fields@,
            forall|q: int|
                0 <= q < fields.len() ==> is_column(columns@, (#[trigger] fields[q]).name@),
            out@.len() == i,
            forall|q: int| 0 <= q < i ==> (#[trigger] out@[q])@.len() == fields.len(),
            forall|q: int, c: int|
                0 <= q < i && 0 <= c < fields.len() ==> row_value(rows@[q]@, fields[c]) == Some(#[trigger] out@[q]@[c]),
        decreases rows.len() - i,
    {
        let row_num = i + 1;
        let row = &rows[i];
        let mut values: Vec<Value> = Vec::new();
        let mut c: usize = 0;
        while c < schema.fields.len()
            invariant
                i < rows@.len() < usize::MAX,
                row_num == i + 1,
                *row == rows@[i as int],
                fields == schema.fields@,
                forall|q: int|
                    0 <= q < fields.len() ==> is_column(columns@, (#[trigger] fields[q]).name@),
                c <= fields.len(),
                values@.len() == c,
                forall|q: int| 0 <= q < c ==> row_value(rows@[i as int]@, fields[q]) == Some(#[trigger] values@[q]),
            decreases fields.len() - c,
        {
            let field = &schema.fields[c];
            match find_field(row, &field.name) {
                None => {
                    let mut message = String::from_str("row ");
                    let n = row_num.to_string();
                    message.append(n.as_str());
                    message.append(" missing required column '");
                    message.append(field.name.as_str());
                    message.append("'");
                    proof {
                        assert(!(exists|k: int| is_first_field(row@, field.name@, k)));
                        assert(row_value(rows@[i as int]@, fields[c as int]) is None);
                        assert(!parquet_rows_ok(rows@, fields));
                    }
                    return Err(IngestionError::SchemaMismatch { message });
                },
                Some(pf) => {
                    proof {
                        let k = choose|k: int| is_first_field(row@, field.name@, k) && row@[k] == *pf;
                        let k2 = choose|k: int| is_first_field(row@, field.name@, k);
                        lemma_first_field_unique(row@, field.name@, k, k2);
                    }
                    match convert_parquet_field(row_num, &field.name, field.data_type, pf) {
                        Ok(v) => {
                            values.push(v);
                        },
                        Err(e) => {
                            proof {
                                assert(row_value(rows@[i as int]@, fields[c as int]) is None);
                                assert(!parquet_rows_ok(rows@, fields));
                            }
                            return Err(e);
                        },
                    }
                },
            }
            c += 1;
        }
        out.push(values);
        i += 1;
    }
    proof {
        assert forall|q: int, c: int| 0 <= q < rows@.len() && 0 <= c < fields.len() implies #[trigger] row_value(
            rows@[q]@,
            fields[c],
        ) is Some by {
            assert(row_value(rows@[q]@, fields[c]) == Some(out@[q]@[c]));
        }
    }
    Ok(DataSet { schema: schema.clone(), rows: out })
}

} // verus!
