//! The table model: logical types, fields, schemas, cell values and data sets.
use vstd::prelude::*;

verus! {

/// Logical data type of a schema field.
#[derive(Debug, Clone, Copy, PartialEq, Eq, Structural)]
pub enum DataType {
    /// 64-bit signed integer.
    Int64,
    /// 64-bit floating point number.
    Float64,
    /// Boolean.
    Bool,
    /// UTF-8 string.
    Utf8,
}

/// A single named, typed field of a [`Schema`].
#[derive(Debug, PartialEq, Eq)]
pub struct Field {
    /// Field (column) name.
    pub name: String,
    /// Field data type.
    pub data_type: DataType,
}

impl Clone for Field {
    fn clone(&self) -> (r: Self)
        ensures
            r == *self,
    {
        Field { name: self.name.clone(), data_type: self.data_type }
    }
}

impl Field {
    /// Creates a field with the given name and type.
    pub fn new(name: &str, data_type: DataType) -> (r: Field)
        ensures
            r.name@ == name@,
            r.data_type == data_type,
    {
        Field { name: name.to_owned(), data_type }
    }
}

/// The ordered list of fields that every row of a [`DataSet`] follows.
#[derive(Debug, PartialEq, Eq)]
pub struct Schema {
    /// Fields in row order.
    pub fields: Vec<Field>,
}

impl Clone for Schema {
    fn clone(&self) -> (r: Self)
        ensures
            r.fields@ == self.fields@,
    {
        let mut fields: Vec<Field> = Vec::new();
        let mut i: usize = 0;
        while i < self.fields.len()
            invariant
                i <= self.fields.len(),
                fields@ == self.fields@.subrange(0, i as int),
            decreases self.fields.len() - i,
        {
            fields.push(self.fields[i].clone());
            i += 1;
        }
        Schema { fields }
    }
}

impl Schema {
    /// Creates a schema from its fields.
    pub fn new(fields: Vec<Field>) -> (r: Schema)
        ensures
            r.fields@ == fields@,
    {
        Schema { fields }
    }

    /// The field names, in order.
    pub fn field_names(&self) -> (r: Vec<String>)
        ensures
            r@.len() == self.fields@.len(),
            forall|i: int| 0 <= i < r@.len() ==> r@[i]@ == self.fields@[i].name@,
    {
        let mut names: Vec<String> = Vec::new();
        let mut i: usize = 0;
        while i < self.fields.len()
            invariant
                i <= self.fields.len(),
                names@.len() == i,
                forall|j: int| 0 <= j < i ==> names@[j]@ == self.fields@[j].name@,
            decreases self.fields.len() - i,
        {
            names.push(self.fields[i].name.clone());
            i += 1;
        }
        names
    }

    /// Position of the first field called `name`, or `None` when there is none.
    pub fn index_of(&self, name: &str) -> (r: Option<usize>)
        ensures
            match r {
                Some(i) => i < self.fields@.len() && self.fields@[i as int].name@ == name@
                    && forall|j: int| 0 <= j < i ==> self.fields@[j].name@ != name@,
                None => forall|j: int| 0 <= j < self.fields@.len() ==> self.fields@[j].name@ != name@,
            },
    {
        let wanted = name.to_owned();
        let mut i: usize = 0;
        while i < self.fields.len()
            invariant
                i <= self.fields.len(),
                wanted@ == name@,
                forall|j: int| 0 <= j < i ==> self.fields@[j].name@ != name@,
            decreases self.fields.len() - i,
        {
            if self.fields[i].name == wanted {
                return Some(i);
            }
            i += 1;
        }
        None
    }
}

/// A single cell value.
///
/// A `Float64` cell holds the IEEE-754 bit pattern of its number, so that the
/// table model carries floating-point data without computing on it.
#[derive(Debug, PartialEq)]
pub enum Value {
    /// Missing or empty value.
    Null,
    /// 64-bit signed integer.
    Int64(i64),
    /// 64-bit float, as its bit pattern.
    Float64(u64),
    /// Boolean.
    Bool(bool),
    /// UTF-8 string.
    Utf8(String),
}

impl Clone for Value {
    fn clone(&self) -> (r: Self)
        ensures
            r == *self,
    {
        match self {
            Value::Null => Value::Null,
            Value::Int64(v) => Value::Int64(*v),
            Value::Float64(b) => Value::Float64(*b),
            Value::Bool(b) => Value::Bool(*b),
            Value::Utf8(s) => Value::Utf8(s.clone()),
        }
    }
}

/// Copies a row cell by cell.
pub fn clone_row(row: &Vec<Value>) -> (r: Vec<Value>)
    ensures
        r@ == row@,
{
    let mut out: Vec<Value> = Vec::new();
    let mut i: usize = 0;
    while i < row.len()
        invariant
            i <= row.len(),
            out@ == row@.subrange(0, i as int),
        decreases row.len() - i,
    {
        out.push(row[i].clone());
        i += 1;
    }
    out
}

/// The rows of a table, each seen as its sequence of values.
pub open spec fn rows_view(rows: Seq<Vec<Value>>) -> Seq<Seq<Value>> {
    rows.map_values(|r: Vec<Value>| r@)
}

/// In-memory table: a schema and its rows, each row laid out in schema order.
#[derive(Debug, PartialEq)]
pub struct DataSet {
    /// Schema describing the row layout.
    pub schema: Schema,
    /// Row-major cell storage.
    pub rows: Vec<Vec<Value>>,
}

impl DataSet {
    /// Creates a data set from a schema and rows.
    pub fn new(schema: Schema, rows: Vec<Vec<Value>>) -> (r: DataSet)
        ensures
            r.schema == schema,
            r.rows@ == rows@,
    {
        DataSet { schema, rows }
    }

    /// Number of rows.
    pub fn row_count(&self) -> (r: usize)
        ensures
            r == self.rows@.len(),
    {
        self.rows.len()
    }
}

} // verus!
