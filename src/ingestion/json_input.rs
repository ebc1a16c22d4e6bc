//! Turning JSON documents (an array of objects, one object, or one object per
//! line) into a typed table, with nested fields named by dot paths.
use crate::ingestion::{trim_str, trimmed, IngestionError};
use serde_json::Value as JsonDocument;
use crate::types::{DataSet, DataType, Field, Schema, Value};
use vstd::prelude::*;
use vstd::string::StringExecFns;

verus! {

/// A JSON number, as the JSON reader could read it.
#[derive(Debug, Clone, PartialEq, Eq)]
pub struct JsonNumber {
    /// The number as an `i64`, when it is an integer in range.
    pub as_i64: Option<i64>,
    /// The number as a `u64`, when it is a non-negative integer in range.
    pub as_u64: Option<u64>,
    /// The bit pattern of the number as an `f64`, when it has one.
    pub as_f64_bits: Option<u64>,
    /// The number as written in JSON.
    pub text: String,
}

/// A member of a JSON object.
#[derive(Debug)]
pub struct JsonMember {
    /// The member's key.
    pub key: String,
    /// The member's value.
    pub value: JsonValue,
}

/// A JSON value.
#[derive(Debug)]
pub enum JsonValue {
    /// `null`.
    Null,
    /// `true` or `false`.
    Bool(bool),
    /// A number.
    Number(JsonNumber),
    /// A string.
    Str(String),
    /// An array.
    Array(Vec<JsonValue>),
    /// An object, members in document order.
    Object(Vec<JsonMember>),
}

/// The value of the first member called `key`.
pub open spec fn member_named(members: Seq<JsonMember>, key: Seq<char>) -> Option<JsonValue>
    decreases members.len(),
{
    if members.len() == 0 {
        None
    } else if members[0].key@ == key {
        Some(members[0].value)
    } else {
        member_named(members.drop_first(), key)
    }
}

/// The value reached from `v` by taking, in turn, the member named by each key.
pub open spec fn follow(v: JsonValue, keys: Seq<Seq<char>>) -> Option<JsonValue>
    decreases keys.len(),
{
    if keys.len() == 0 {
        Some(v)
    } else {
        match v {
            JsonValue::Object(m) => match member_named(m@, keys[0]) {
                Some(c) => follow(c, keys.drop_first()),
                None => None,
            },
            _ => None,
        }
    }
}

/// The pieces of `s` between occurrences of `sep`, as `str::split` gives
/// them: always at least one, empty pieces included.
pub open spec fn split_at_char(s: Seq<char>, sep: char) -> Seq<Seq<char>>
    decreases s.len(),
{
    if s.len() == 0 {
        seq![Seq::empty()]
    } else {
        let rest = split_at_char(s.drop_first(), sep);
        if s[0] == sep {
            seq![Seq::empty()] + rest
        } else {
            rest.update(0, seq![s[0]] + rest[0])
        }
    }
}

/// The pieces of `path` between dots.
pub open spec fn dot_segments(path: Seq<char>) -> Seq<Seq<char>> {
    split_at_char(path, '.')
}

/// Relies on std's `str::split` with `'.'`: the pieces between dots, at least one.
#[verifier::external_body]
fn split_dots(path: &str) -> (r: Vec<String>)
    ensures
        r@.map_values(|s: String| s@) == dot_segments(path@),
        r@.len() >= 1,
{
    path.split('.').map(|s| s.to_owned()).collect()
}

/// What the JSON reader makes of the text, when it is one JSON document.
pub uninterp spec fn parsed_json(text: Seq<char>) -> Option<JsonValue>;

/// Relies on serde_json's `from_str`: the document that the text holds, or the
/// reader's error message; numbers are read through `Number::as_i64`, `as_u64`
/// and `as_f64`, and each object key appears once.
#[verifier::external_body]
fn parse_json(text: &str) -> (r: Result<JsonValue, String>)
    ensures
        r is Ok <==> parsed_json(text@) is Some,
        r is Ok ==> r->Ok_0 == parsed_json(text@)->0,
{
    serde_json::from_str::<JsonDocument>(text).map(json_from_serde).map_err(|e| e.to_string())
}

#[verifier::external_type_specification]
#[verifier::external_body]
pub struct ExJsonDocument(JsonDocument);

/// Relies on serde_json's `Value` and `Number` accessors: the same document as a [`JsonValue`].
#[verifier::external_body]
fn json_from_serde(v: JsonDocument) -> JsonValue {
    match v {
        JsonDocument::Null => JsonValue::Null,
        JsonDocument::Bool(b) => JsonValue::Bool(b),
        JsonDocument::Number(n) => JsonValue::Number(JsonNumber {
            as_i64: n.as_i64(),
            as_u64: n.as_u64(),
            as_f64_bits: n.as_f64().map(|x| x.to_bits()),
            text: n.to_string(),
        }),
        JsonDocument::String(s) => JsonValue::Str(s),
        JsonDocument::Array(a) => JsonValue::Array(a.into_iter().map(json_from_serde).collect()),
        JsonDocument::Object(m) => JsonValue::Object(
            m.into_iter().map(|(key, v)| JsonMember { key, value: json_from_serde(v) }).collect(),
        ),
    }
}

/// The lines of a text, as `str::lines` gives them.
pub uninterp spec fn text_lines(text: Seq<char>) -> Seq<Seq<char>>;

/// Relies on std's `str::lines`: the text split at line ends.
#[verifier::external_body]
fn split_lines(text: &str) -> (r: Vec<String>)
    ensures
        r@.map_values(|s: String| s@) == text_lines(text@),
{
    text.lines().map(|s| s.to_owned()).collect()
}

proof fn lemma_member_named_from(members: Seq<JsonMember>, key: Seq<char>, i: int)
    requires
        0 <= i < members.len(),
    ensures
        member_named(members.subrange(i, members.len() as int), key) == if members[i].key@ == key {
            Some(members[i].value)
        } else {
            member_named(members.subrange(i + 1, members.len() as int), key)
        },
{
    assert(members.subrange(i, members.len() as int).drop_first() =~= members.subrange(
        i + 1,
        members.len() as int,
    ));
}

/// The value of the first member called `key`.
fn find_member<'a>(members: &'a Vec<JsonMember>, key: &String) -> (r: Option<&'a JsonValue>)
    ensures
        match member_named(members@, key@) {
            Some(v) => r is Some && *r->0 == v,
            None => r is None,
        },
{
    let mut i: usize = 0;
    proof {
        assert(members@.subrange(0, members@.len() as int) =~= members@);
    }
    while i < members.len()
        invariant
            i <= members@.len(),
            member_named(members@, key@) == member_named(members@.subrange(i as int, members@.len() as int), key@),
        decreases members.len() - i,
    {
        proof {
            lemma_member_named_from(members@, key@, i as int);
        }
        if members[i].key == *key {
            return Some(&members[i].value);
        }
        i += 1;
    }
    None
}

/// The value at a dot path below an object's members.
fn lookup_path<'a>(root: &'a Vec<JsonMember>, keys: &Vec<String>) -> (r: Option<&'a JsonValue>)
    requires
        keys@.len() >= 1,
    ensures
        match follow(JsonValue::Object(*root), keys@.map_values(|s: String| s@)) {
            Some(v) => r is Some && *r->0 == v,
            None => r is None,
        },
{
    let ghost segs = keys@.map_values(|s: String| s@);
    let mut cur: &JsonValue = match find_member(root, &keys[0]) {
        Some(v) => v,
        None => {
            return None;
        },
    };
    proof {
        assert(segs.subrange(1, segs.len() as int) =~= segs.drop_first());
    }
    let mut i: usize = 1;
    while i < keys.len()
        invariant
            1 <= i <= keys@.len(),
            segs == keys@.map_values(|s: String| s@),
            follow(JsonValue::Object(*root), segs) == follow(*cur, segs.subrange(i as int, segs.len() as int)),
        decreases keys.len() - i,
    {
        proof {
            assert(segs.subrange(i as int, segs.len() as int).drop_first() =~= segs.subrange(
                i + 1,
                segs.len() as int,
            ));
        }
        match cur {
            JsonValue::Object(m) => match find_member(m, &keys[i]) {
                Some(v) => {
                    cur = v;
                },
                None => {
                    return None;
                },
            },
            _ => {
                return None;
            },
        }
        i += 1;
    }
    proof {
        assert(segs.subrange(i as int, segs.len() as int) =~= Seq::<Seq<char>>::empty());
    }
    Some(cur)
}

/// The table value of a JSON value in a column of type `dt`, if it has one:
/// `null` is `Null`; strings, booleans, integers in `i64` range and numbers go
/// to `Utf8`, `Bool`, `Int64` and `Float64` columns.
pub open spec fn json_cell(dt: DataType, v: JsonValue) -> Option<Value> {
    match v {
        JsonValue::Null => Some(Value::Null),
        JsonValue::Str(s) => if dt == DataType::Utf8 {
            Some(Value::Utf8(s))
        } else {
            None
        },
        JsonValue::Bool(b) => if dt == DataType::Bool {
            Some(Value::Bool(b))
        } else {
            None
        },
        JsonValue::Number(n) => match dt {
            DataType::Int64 => match n.as_i64 {
                Some(i) => Some(Value::Int64(i)),
                None => None,
            },
            DataType::Float64 => match n.as_f64_bits {
                Some(b) => Some(Value::Float64(b)),
                None => None,
            },
            _ => None,
        },
        _ => None,
    }
}

/// A short rendering of a value for error messages.
fn json_text(v: &JsonValue) -> String {
    match v {
        JsonValue::Null => String::from_str("null"),
        JsonValue::Bool(b) => if *b {
            String::from_str("true")
        } else {
            String::from_str("false")
        },
        JsonValue::Number(n) => n.text.clone(),
        JsonValue::Str(s) => {
            let mut out = String::from_str("\"");
            out.append(s.as_str());
            out.append("\"");
            out
        },
        JsonValue::Array(_) => String::from_str("[...]"),
        JsonValue::Object(_) => String::from_str("{...}"),
    }
}

/// Converts one JSON value for column `column` of type `data_type` at 1-based row `row`.
pub fn convert_json_value(row: usize, column: &String, data_type: DataType, v: &JsonValue) -> (r: Result<
    Value,
    IngestionError,
>)
    ensures
        r is Ok <==> json_cell(data_type, *v) is Some,
        r is Ok ==> r->Ok_0 == json_cell(data_type, *v)->0,
        r is Err ==> (r->Err_0 matches IngestionError::ParseError { row: rr, .. } && rr == row),
{
    let message = match (data_type, v) {
        (_, JsonValue::Null) => {
            return Ok(Value::Null);
        },
        (DataType::Utf8, JsonValue::Str(s)) => {
            return Ok(Value::Utf8(s.clone()));
        },
        (DataType::Bool, JsonValue::Bool(b)) => {
            return Ok(Value::Bool(*b));
        },
        (DataType::Int64, JsonValue::Number(n)) => match n.as_i64 {
            Some(i) => {
                return Ok(Value::Int64(i));
            },
            None => match n.as_u64 {
                Some(_) => String::from_str("u64 out of range for i64"),
                None => String::from_str("expected integer number"),
            },
        },
        (DataType::Float64, JsonValue::Number(n)) => match n.as_f64_bits {
            Some(b) => {
                return Ok(Value::Float64(b));
            },
            None => String::from_str("expected number"),
        },
        (DataType::Utf8, _) => String::from_str("expected string"),
        (DataType::Bool, _) => String::from_str("expected bool"),
        (DataType::Int64, _) => String::from_str("expected integer number"),
        (DataType::Float64, _) => String::from_str("expected number"),
    };
    Err(IngestionError::ParseError { row, column: column.clone(), raw: json_text(v), message })
}

/// The value that field `f`'s dot path reaches in `v`.
pub open spec fn field_value(v: JsonValue, f: Field) -> Option<JsonValue> {
    follow(v, dot_segments(f.name@))
}

/// `v` is an object in which every field's path reaches a value its column accepts.
pub open spec fn json_row_ok(v: JsonValue, fields: Seq<Field>) -> bool {
    &&& v is Object
    &&& forall|j: int|
        0 <= j < fields.len() ==> #[trigger] field_value(v, fields[j]) is Some && json_cell(
            fields[j].data_type,
            field_value(v, fields[j])->0,
        ) is Some
}

/// The table value of field `f` of the object `v`.
pub open spec fn json_cell_at(v: JsonValue, f: Field) -> Value {
    json_cell(f.data_type, field_value(v, f)->0)->0
}

/// What ingesting `values` with these fields gives: a table exactly when every
/// value is an object that has every field in a form its column accepts, with
/// row `i` made of the fields of value `i`.
pub open spec fn is_json_table(values: Seq<JsonValue>, fields: Seq<Field>, r: Result<DataSet, IngestionError>) -> bool {
    &&& (r is Ok <==> forall|i: int| 0 <= i < values.len() ==> json_row_ok(#[trigger] values[i], fields))
    &&& r matches Ok(ds) ==> {
        &&& ds.schema.fields@ == fields
        &&& ds.rows@.len() == values.len()
        &&& forall|i: int| 0 <= i < values.len() ==> (#[trigger] ds.rows@[i])@.len() == fields.len()
        &&& forall|i: int, j: int|
            0 <= i < values.len() && 0 <= j < fields.len() ==> #[trigger] ds.rows@[i]@[j] == json_cell_at(
                values[i],
                fields[j],
            )
    }
}

/// "row N" followed by `rest`, for messages.
fn row_message(row: usize, rest: &str) -> String {
    let mut out = String::from_str("row ");
    let n = row.to_string();
    out.append(n.as_str());
    out.append(rest);
    out
}

/// Builds a table from JSON values, one row per value; rows are numbered from 1 in errors.
pub fn ingest_json_values(values: &Vec<JsonValue>, schema: &Schema) -> (r: Result<DataSet, IngestionError>)
    requires
        values@.len() < usize::MAX,
    ensures
        is_json_table(values@, schema.fields@, r),
{
    let ghost fields = schema.fields@;
    let mut rows: Vec<Vec<Value>> = Vec::new();
    let mut i: usize = 0;
    while i < values.len()
        invariant
            i <= values@.len(),
            values@.len() < usize::MAX,
            fields == schema.fields@,
            rows@.len() == i,
            forall|q: int| 0 <= q < i ==> json_row_ok(#[trigger] values@[q], fields),
            forall|q: int| 0 <= q < i ==> (#[trigger] rows@[q])@.len() == fields.len(),
            forall|q: int, j: int|
                0 <= q < i && 0 <= j < fields.len() ==> #[trigger] rows@[q]@[j] == json_cell_at(values@[q], fields[j]),
        decreases values.len() - i,
    {
        let row_num = i + 1;
        let members = match &values[i] {
            JsonValue::Object(m) => m,
            _ => {
                return Err(IngestionError::SchemaMismatch { message: row_message(row_num, " is not a json object") });
            },
        };
        let mut row: Vec<Value> = Vec::new();
        let mut j: usize = 0;
        while j < schema.fields.len()
            invariant
                i < values@.len(),
                values@[i as int] == JsonValue::Object(*members),
                fields == schema.fields@,
                j <= fields.len(),
                row@.len() == j,
                forall|q: int|
                    0 <= q < j ==> #[trigger] field_value(values@[i as int], fields[q]) is Some && json_cell(
                        fields[q].data_type,
                        field_value(values@[i as int], fields[q])->0,
                    ) is Some,
                forall|q: int| 0 <= q < j ==> #[trigger] row@[q] == json_cell_at(values@[i as int], fields[q]),
            decreases fields.len() - j,
        {
            let field = &schema.fields[j];
            let keys = split_dots(field.name.as_str());
            let found = lookup_path(members, &keys);
            match found {
                None => {
                    let mut message = row_message(row_num, " missing required field '");
                    message.append(field.name.as_str());
                    message.append("'");
                    proof {
                        assert(field_value(values@[i as int], fields[j as int]) is None);
                        assert(!json_row_ok(values@[i as int], fields));
                    }
                    return Err(IngestionError::SchemaMismatch { message });
                },
                Some(v) => {
                    match convert_json_value(row_num, &field.name, field.data_type, v) {
                        Ok(cell) => {
                            row.push(cell);
                        },
                        Err(e) => {
                            proof {
                                assert(field_value(values@[i as int], fields[j as int]) == Some(*v));
                                assert(json_cell(fields[j as int].data_type, *v) is None);
                                assert(!json_row_ok(values@[i as int], fields));
                            }
                            return Err(e);
                        },
                    }
                },
            }
            j += 1;
        }
        rows.push(row);
        i += 1;
    }
    Ok(DataSet { schema: schema.clone(), rows })
}

/// Ingests JSON text: an array of objects, a single object, or, when the whole
/// text is not one JSON document, one object per non-blank line.
pub fn ingest_json_from_str(input: &str, schema: &Schema) -> (r: Result<DataSet, IngestionError>)
    ensures
        trimmed(input@).len() == 0 ==> (r matches Err(e) && e is SchemaMismatch),
        trimmed(input@).len() != 0 && parsed_json(trimmed(input@)) is Some ==> match parsed_json(
            trimmed(input@),
        )->0 {
            JsonValue::Array(items) => items@.len() < usize::MAX ==> is_json_table(items@, schema.fields@, r),
            JsonValue::Object(_) => is_json_table(seq![parsed_json(trimmed(input@))->0], schema.fields@, r),
            _ => r matches Err(e) && e is SchemaMismatch,
        },
{
    let text = trim_str(input);
    if text.is_empty() {
        return Err(IngestionError::SchemaMismatch { message: String::from_str("json input is empty") });
    }
    match parse_json(text) {
        Ok(doc) => match doc {
            JsonValue::Array(items) => {
                if items.len() == usize::MAX {
                    return Err(IngestionError::SchemaMismatch { message: String::from_str("json array is too long") });
                }
                ingest_json_values(&items, schema)
            },
            JsonValue::Object(m) => {
                let one = vec![JsonValue::Object(m)];
                proof {
                    assert(one@ =~= seq![parsed_json(trimmed(input@))->0]);
                }
                ingest_json_values(&one, schema)
            },
            _ => Err(
                IngestionError::SchemaMismatch {
                    message: String::from_str("json must be an object, an array of objects, or NDJSON"),
                },
            ),
        },
        Err(_) => {
            let lines = split_lines(text);
            let mut docs: Vec<JsonValue> = Vec::new();
            let mut i: usize = 0;
            while i < lines.len()
                invariant
                    i <= lines@.len(),
                    docs@.len() <= i,
                    parsed_json(trimmed(input@)) is None,
                decreases lines.len() - i,
            {
                let line = trim_str(lines[i].as_str());
                if !line.is_empty() {
                    match parse_json(line) {
                        Ok(v) => {
                            docs.push(v);
                        },
                        Err(e) => {
                            let mut message = String::from_str("invalid ndjson at line ");
                            let n = (i + 1).to_string();
                            message.append(n.as_str());
                            message.append(": ");
                            message.append(e.as_str());
                            return Err(IngestionError::SchemaMismatch { message });
                        },
                    }
                }
                i += 1;
            }
            if docs.len() == usize::MAX {
                return Err(IngestionError::SchemaMismatch { message: String::from_str("ndjson input is too long") });
            }
            ingest_json_values(&docs, schema)
        },
    }
}

} // verus!
