//! Sequential row transformations over a [`DataSet`]: filter and map.
use crate::types::{clone_row, rows_view, DataSet, DataType, Field, Value};
use vstd::prelude::*;

verus! {

/// Built-in reductions over a single column.
#[derive(Debug, Clone, Copy, PartialEq, Eq, Structural)]
pub enum ReduceOp {
    /// Count all rows, nulls included.
    Count,
    /// Sum of the numeric values, nulls ignored.
    Sum,
    /// Smallest numeric value, nulls ignored.
    Min,
    /// Largest numeric value, nulls ignored.
    Max,
}

/// A predicate is pure when it accepts every row and gives each row one answer.
pub open spec fn is_pure_predicate<F: Fn(&Vec<Value>) -> bool>(f: F) -> bool {
    &&& forall|r: &Vec<Value>| #[trigger] f.requires((r,))
    &&& forall|r: &Vec<Value>, a: bool, b: bool|
        #[trigger] f.ensures((r,), a) && #[trigger] f.ensures((r,), b) ==> a == b
}

/// The predicate answers `true` on `row`.
pub open spec fn keeps<F: Fn(&Vec<Value>) -> bool>(f: F, row: Vec<Value>) -> bool {
    f.ensures((&row,), true)
}

/// The rows of `rows` that `f` keeps, in their order.
pub open spec fn kept_rows<F: Fn(&Vec<Value>) -> bool>(rows: Seq<Vec<Value>>, f: F) -> Seq<Vec<Value>> {
    rows.filter(|r: Vec<Value>| keeps(f, r))
}

/// A mapper is pure when it accepts every row and maps each row to one result.
pub open spec fn is_pure_mapper<F: Fn(&Vec<Value>) -> Vec<Value>>(f: F) -> bool {
    &&& forall|r: &Vec<Value>| #[trigger] f.requires((r,))
    &&& forall|r: &Vec<Value>, a: Vec<Value>, b: Vec<Value>|
        #[trigger] f.ensures((r,), a) && #[trigger] f.ensures((r,), b) ==> a == b
}

/// Every row that `f` can return for a row of `rows` has `width` values.
pub open spec fn keeps_arity<F: Fn(&Vec<Value>) -> Vec<Value>>(f: F, rows: Seq<Vec<Value>>, width: nat) -> bool {
    forall|i: int, out: Vec<Value>|
        0 <= i < rows.len() && #[trigger] f.ensures((&rows[i],), out) ==> out@.len() == width
}

/// `out` holds, row for row, what `f` returned for `rows`.
pub open spec fn is_mapped<F: Fn(&Vec<Value>) -> Vec<Value>>(
    rows: Seq<Vec<Value>>,
    f: F,
    out: Seq<Vec<Value>>,
) -> bool {
    &&& out.len() == rows.len()
    &&& forall|i: int| 0 <= i < rows.len() ==> f.ensures((&rows[i],), #[trigger] out[i])
}

/// The row that a pure mapper returns for `row`.
pub open spec fn image<F: Fn(&Vec<Value>) -> Vec<Value>>(f: F, row: Vec<Value>) -> Vec<Value> {
    choose|o: Vec<Value>| f.ensures((&row,), o)
}

/// With a pure mapper, row `i` of a map's output is the mapper's result on row `i`.
pub proof fn lemma_mapped_rows_are_images<F: Fn(&Vec<Value>) -> Vec<Value>>(
    rows: Seq<Vec<Value>>,
    f: F,
    out: Seq<Vec<Value>>,
)
    requires
        is_pure_mapper(f),
        is_mapped(rows, f, out),
    ensures
        forall|i: int| 0 <= i < rows.len() ==> #[trigger] out[i] == image(f, rows[i]),
{
    assert forall|i: int| 0 <= i < rows.len() implies #[trigger] out[i] == image(f, rows[i]) by {
        assert(f.ensures((&rows[i],), out[i]));
        let o = image(f, rows[i]);
        assert(f.ensures((&rows[i],), o));
    }
}

/// Mapping the same rows twice with the same pure mapper gives identical rows.
pub proof fn lemma_map_repeatable<F: Fn(&Vec<Value>) -> Vec<Value>>(
    rows: Seq<Vec<Value>>,
    f: F,
    first: Seq<Vec<Value>>,
    second: Seq<Vec<Value>>,
)
    requires
        is_pure_mapper(f),
        is_mapped(rows, f, first),
        is_mapped(rows, f, second),
    ensures
        first == second,
{
    assert forall|i: int| 0 <= i < rows.len() implies #[trigger] first[i] == second[i] by {
        assert(f.ensures((&rows[i],), first[i]));
        assert(f.ensures((&rows[i],), second[i]));
    }
    assert(first =~= second);
}

/// Filtering the same rows twice with the same pure predicate gives identical rows.
pub proof fn lemma_filter_repeatable<F: Fn(&Vec<Value>) -> bool>(
    rows: Seq<Vec<Value>>,
    f: F,
    first: Seq<Vec<Value>>,
    second: Seq<Vec<Value>>,
)
    requires
        is_pure_predicate(f),
        rows_view(first) == rows_view(kept_rows(rows, f)),
        rows_view(second) == rows_view(kept_rows(rows, f)),
    ensures
        rows_view(first) == rows_view(second),
{
}

/// Extending the filtered prefix by one row.
pub proof fn lemma_kept_rows_step<F: Fn(&Vec<Value>) -> bool>(rows: Seq<Vec<Value>>, f: F, i: int)
    requires
        0 <= i < rows.len(),
    ensures
        kept_rows(rows.subrange(0, i + 1), f) == if keeps(f, rows[i]) {
            kept_rows(rows.subrange(0, i), f).push(rows[i])
        } else {
            kept_rows(rows.subrange(0, i), f)
        },
{
    reveal(Seq::filter);
    assert(rows.subrange(0, i + 1).drop_last() =~= rows.subrange(0, i));
}

/// The rows seen as value sequences, extended by one row.
pub proof fn lemma_rows_view_push(rows: Seq<Vec<Value>>, row: Vec<Value>)
    ensures
        rows_view(rows.push(row)) == rows_view(rows).push(row@),
{
    assert(rows_view(rows.push(row)) =~= rows_view(rows).push(row@));
}

/// Copies the rows of `rows[start..end]` on which `predicate` answers `true`.
pub fn filter_range<F: Fn(&Vec<Value>) -> bool>(
    rows: &Vec<Vec<Value>>,
    start: usize,
    end: usize,
    predicate: &F,
) -> (out: Vec<Vec<Value>>)
    requires
        start <= end <= rows.len(),
        is_pure_predicate(*predicate),
    ensures
        rows_view(out@) == rows_view(kept_rows(rows@.subrange(start as int, end as int), *predicate)),
{
    let ghost part = rows@.subrange(start as int, end as int);
    let mut out: Vec<Vec<Value>> = Vec::new();
    let mut i: usize = start;
    while i < end
        invariant
            start <= i <= end <= rows.len(),
            part == rows@.subrange(start as int, end as int),
            is_pure_predicate(*predicate),
            rows_view(out@) == rows_view(kept_rows(part.subrange(0, i - start), *predicate)),
        decreases end - i,
    {
        let keep = predicate(&rows[i]);
        proof {
            assert(part[i - start] == rows@[i as int]);
            lemma_kept_rows_step(part, *predicate, i - start);
            if keep {
                assert(keeps(*predicate, rows@[i as int]));
            } else {
                assert(!keeps(*predicate, rows@[i as int]));
            }
        }
        if keep {
            let copy = clone_row(&rows[i]);
            proof {
                lemma_rows_view_push(out@, copy);
                lemma_rows_view_push(kept_rows(part.subrange(0, i - start), *predicate), rows@[i as int]);
            }
            out.push(copy);
        }
        i += 1;
    }
    proof {
        assert(part.subrange(0, end - start) =~= part);
    }
    out
}

/// Applies `mapper` to each row of `rows[start..end]`.
pub fn map_range<F: Fn(&Vec<Value>) -> Vec<Value>>(
    rows: &Vec<Vec<Value>>,
    start: usize,
    end: usize,
    mapper: &F,
) -> (out: Vec<Vec<Value>>)
    requires
        start <= end <= rows.len(),
        is_pure_mapper(*mapper),
    ensures
        is_mapped(rows@.subrange(start as int, end as int), *mapper, out@),
{
    let ghost part = rows@.subrange(start as int, end as int);
    let mut out: Vec<Vec<Value>> = Vec::new();
    let mut i: usize = start;
    while i < end
        invariant
            start <= i <= end <= rows.len(),
            part == rows@.subrange(start as int, end as int),
            is_pure_mapper(*mapper),
            out@.len() == i - start,
            forall|k: int| 0 <= k < i - start ==> mapper.ensures((&part[k],), #[trigger] out@[k]),
        decreases end - i,
    {
        let mapped = mapper(&rows[i]);
        proof {
            assert(part[i - start] == rows@[i as int]);
        }
        out.push(mapped);
        i += 1;
    }
    out
}

impl DataSet {
    /// A new data set with the same schema and only the rows on which
    /// `predicate` answers `true`, in the order they had.
    pub fn filter_rows<F: Fn(&Vec<Value>) -> bool>(&self, predicate: F) -> (r: DataSet)
        requires
            is_pure_predicate(predicate),
        ensures
            r.schema.fields@ == self.schema.fields@,
            rows_view(r.rows@) == rows_view(kept_rows(self.rows@, predicate)),
    {
        let rows = filter_range(&self.rows, 0, self.rows.len(), &predicate);
        proof {
            assert(self.rows@.subrange(0, self.rows@.len() as int) =~= self.rows@);
        }
        DataSet { schema: self.schema.clone(), rows }
    }

    /// A new data set with the same schema whose row `i` is `mapper` applied to row `i`.
    ///
    /// Every row that `mapper` returns must have one value per schema field.
    pub fn map_rows<F: Fn(&Vec<Value>) -> Vec<Value>>(&self, mapper: F) -> (r: DataSet)
        requires
            is_pure_mapper(mapper),
            keeps_arity(mapper, self.rows@, self.schema.fields@.len()),
        ensures
            r.schema.fields@ == self.schema.fields@,
            is_mapped(self.rows@, mapper, r.rows@),
            forall|i: int| 0 <= i < r.rows@.len() ==> (#[trigger] r.rows@[i])@.len() == self.schema.fields@.len(),
    {
        let rows = map_range(&self.rows, 0, self.rows.len(), &mapper);
        proof {
            assert(self.rows@.subrange(0, self.rows@.len() as int) =~= self.rows@);
        }
        DataSet { schema: self.schema.clone(), rows }
    }
}

/// A reducer is pure when it accepts every accumulator and row and gives each pair one result.
pub open spec fn is_pure_reducer<A, F: Fn(A, &Vec<Value>) -> A>(f: F) -> bool {
    &&& forall|acc: A, r: &Vec<Value>| #[trigger] f.requires((acc, r))
    &&& forall|acc: A, r: &Vec<Value>, x: A, y: A|
        #[trigger] f.ensures((acc, r), x) && #[trigger] f.ensures((acc, r), y) ==> x == y
}

/// Left fold of the rows with the reducer, starting from `init`.
pub open spec fn fold_rows<A, F: Fn(A, &Vec<Value>) -> A>(f: F, init: A, rows: Seq<Vec<Value>>) -> A
    decreases rows.len(),
{
    if rows.len() == 0 {
        init
    } else {
        let acc = fold_rows(f, init, rows.drop_last());
        choose|next: A| f.ensures((acc, &rows.last()), next)
    }
}

impl DataSet {
    /// Folds all rows, in order, into an accumulator that starts at `init`.
    pub fn reduce_rows<A, F: Fn(A, &Vec<Value>) -> A>(&self, init: A, reducer: F) -> (r: A)
        requires
            is_pure_reducer(reducer),
        ensures
            r == fold_rows(reducer, init, self.rows@),
    {
        let mut acc = init;
        let mut i: usize = 0;
        while i < self.rows.len()
            invariant
                i <= self.rows@.len(),
                is_pure_reducer(reducer),
                acc == fold_rows(reducer, init, self.rows@.subrange(0, i as int)),
            decreases self.rows@.len() - i,
        {
            let ghost before = acc;
            acc = reducer(acc, &self.rows[i]);
            proof {
                let prefix = self.rows@.subrange(0, i + 1);
                assert(prefix.drop_last() =~= self.rows@.subrange(0, i as int));
                let chosen = choose|next: A| reducer.ensures((before, &prefix.last()), next);
                assert(reducer.ensures((before, &prefix.last()), acc));
                assert(reducer.ensures((before, &prefix.last()), chosen));
            }
            i += 1;
        }
        proof {
            assert(self.rows@.subrange(0, self.rows@.len() as int) =~= self.rows@);
        }
        acc
    }
}

/// Rows of `dataset` on which `predicate` answers `true`; same as [`DataSet::filter_rows`].
pub fn filter<F: Fn(&Vec<Value>) -> bool>(dataset: &DataSet, predicate: F) -> (r: DataSet)
    requires
        is_pure_predicate(predicate),
    ensures
        r.schema.fields@ == dataset.schema.fields@,
        rows_view(r.rows@) == rows_view(kept_rows(dataset.rows@, predicate)),
{
    dataset.filter_rows(predicate)
}

/// `mapper` applied to every row of `dataset`; same as [`DataSet::map_rows`].
pub fn map<F: Fn(&Vec<Value>) -> Vec<Value>>(dataset: &DataSet, mapper: F) -> (r: DataSet)
    requires
        is_pure_mapper(mapper),
        keeps_arity(mapper, dataset.rows@, dataset.schema.fields@.len()),
    ensures
        r.schema.fields@ == dataset.schema.fields@,
        is_mapped(dataset.rows@, mapper, r.rows@),
{
    dataset.map_rows(mapper)
}


/// `fields[idx]` is the first field called `name`.
pub open spec fn is_first_named(fields: Seq<Field>, name: Seq<char>, idx: int) -> bool {
    &&& 0 <= idx < fields.len()
    &&& fields[idx].name@ == name
    &&& forall|j: int| 0 <= j < idx ==> fields[j].name@ != name
}

/// The `Int64` values at position `idx` of the rows, in row order; nulls,
/// missing cells and values of other types are left out.
pub open spec fn int_cells(rows: Seq<Vec<Value>>, idx: int) -> Seq<i64>
    decreases rows.len(),
{
    if rows.len() == 0 {
        Seq::empty()
    } else {
        let before = int_cells(rows.drop_last(), idx);
        let row = rows.last();
        if 0 <= idx < row@.len() {
            match row@[idx] {
                Value::Int64(v) => before.push(v),
                _ => before,
            }
        } else {
            before
        }
    }
}

/// The `Float64` bit patterns at position `idx` of the rows, in row order;
/// nulls, missing cells and values of other types are left out.
pub open spec fn float_cells(rows: Seq<Vec<Value>>, idx: int) -> Seq<u64>
    decreases rows.len(),
{
    if rows.len() == 0 {
        Seq::empty()
    } else {
        let before = float_cells(rows.drop_last(), idx);
        let row = rows.last();
        if 0 <= idx < row@.len() {
            match row@[idx] {
                Value::Float64(b) => before.push(b),
                _ => before,
            }
        } else {
            before
        }
    }
}

/// Sum of the values.
pub open spec fn int_sum(vals: Seq<i64>) -> int
    decreases vals.len(),
{
    if vals.len() == 0 {
        0
    } else {
        int_sum(vals.drop_last()) + vals.last()
    }
}

/// Every running sum of the values fits in an `i64`.
pub open spec fn sums_fit(vals: Seq<i64>) -> bool {
    forall|k: int| 0 <= k <= vals.len() ==> i64::MIN <= #[trigger] int_sum(vals.take(k)) <= i64::MAX
}

/// Smallest value; `vals` is not empty.
pub open spec fn int_min(vals: Seq<i64>) -> i64
    decreases vals.len(),
{
    if vals.len() <= 1 {
        vals[0]
    } else {
        let m = int_min(vals.drop_last());
        if vals.last() < m {
            vals.last()
        } else {
            m
        }
    }
}

/// Largest value; `vals` is not empty.
pub open spec fn int_max(vals: Seq<i64>) -> i64
    decreases vals.len(),
{
    if vals.len() <= 1 {
        vals[0]
    } else {
        let m = int_max(vals.drop_last());
        if vals.last() > m {
            vals.last()
        } else {
            m
        }
    }
}

/// `op` over a non-empty sequence of integers whose running sums fit.
pub open spec fn int_reduction(op: ReduceOp, vals: Seq<i64>) -> i64 {
    match op {
        ReduceOp::Min => int_min(vals),
        ReduceOp::Max => int_max(vals),
        _ => int_sum(vals) as i64,
    }
}

/// A float combiner is pure when it accepts every input and gives each input one result.
pub open spec fn is_pure_combiner<C: Fn(ReduceOp, u64, u64) -> u64>(c: C) -> bool {
    &&& forall|op: ReduceOp, a: u64, b: u64| #[trigger] c.requires((op, a, b))
    &&& forall|op: ReduceOp, a: u64, b: u64, x: u64, y: u64|
        #[trigger] c.ensures((op, a, b), x) && #[trigger] c.ensures((op, a, b), y) ==> x == y
}

/// Left fold of `vals` with the combiner; the first value starts the fold.
pub open spec fn float_fold<C: Fn(ReduceOp, u64, u64) -> u64>(c: C, op: ReduceOp, vals: Seq<u64>) -> u64
    decreases vals.len(),
{
    if vals.len() <= 1 {
        vals[0]
    } else {
        let acc = float_fold(c, op, vals.drop_last());
        choose|r: u64| c.ensures((op, acc, vals.last()), r)
    }
}

/// What `op` gives on column `idx` of a table with these fields and rows.
pub open spec fn column_reduction<C: Fn(ReduceOp, u64, u64) -> u64>(
    fields: Seq<Field>,
    rows: Seq<Vec<Value>>,
    idx: int,
    op: ReduceOp,
    c: C,
) -> Value {
    if op == ReduceOp::Count {
        Value::Int64(rows.len() as i64)
    } else {
        match fields[idx].data_type {
            DataType::Int64 => {
                let vals = int_cells(rows, idx);
                if vals.len() == 0 {
                    Value::Null
                } else {
                    Value::Int64(int_reduction(op, vals))
                }
            },
            DataType::Float64 => {
                let vals = float_cells(rows, idx);
                if vals.len() == 0 {
                    Value::Null
                } else {
                    Value::Float64(float_fold(c, op, vals))
                }
            },
            _ => Value::Null,
        }
    }
}

proof fn lemma_int_sum_push(vals: Seq<i64>, v: i64)
    ensures
        int_sum(vals.push(v)) == int_sum(vals) + v,
{
    assert(vals.push(v).drop_last() =~= vals);
}

proof fn lemma_cells_step(rows: Seq<Vec<Value>>, idx: int, i: int)
    requires
        0 <= i < rows.len(),
    ensures
        int_cells(rows.subrange(0, i + 1), idx) == {
            let before = int_cells(rows.subrange(0, i), idx);
            if 0 <= idx < rows[i]@.len() {
                match rows[i]@[idx] {
                    Value::Int64(v) => before.push(v),
                    _ => before,
                }
            } else {
                before
            }
        },
        float_cells(rows.subrange(0, i + 1), idx) == {
            let before = float_cells(rows.subrange(0, i), idx);
            if 0 <= idx < rows[i]@.len() {
                match rows[i]@[idx] {
                    Value::Float64(b) => before.push(b),
                    _ => before,
                }
            } else {
                before
            }
        },
{
    assert(rows.subrange(0, i + 1).drop_last() =~= rows.subrange(0, i));
}

/// The integer cells of a prefix of the rows are a prefix of the integer cells.
proof fn lemma_int_cells_prefix(rows: Seq<Vec<Value>>, idx: int, i: int)
    requires
        0 <= i <= rows.len(),
    ensures
        int_cells(rows.subrange(0, i), idx).len() <= int_cells(rows, idx).len(),
        int_cells(rows.subrange(0, i), idx) == int_cells(rows, idx).take(
            int_cells(rows.subrange(0, i), idx).len() as int,
        ),
    decreases rows.len() - i,
{
    if i < rows.len() {
        lemma_int_cells_prefix(rows, idx, i + 1);
        lemma_cells_step(rows, idx, i);
        let whole = int_cells(rows, idx);
        let a = int_cells(rows.subrange(0, i), idx);
        let b = int_cells(rows.subrange(0, i + 1), idx);
        assert(a =~= b.take(a.len() as int));
        assert(a =~= whole.take(a.len() as int));
    } else {
        assert(rows.subrange(0, i) =~= rows);
        assert(int_cells(rows, idx).take(int_cells(rows, idx).len() as int) =~= int_cells(rows, idx));
    }
}

/// `op` over the integer cells at `idx`; `None` when there are none.
fn reduce_int_column(rows: &Vec<Vec<Value>>, idx: usize, op: ReduceOp) -> (r: Option<i64>)
    requires
        op != ReduceOp::Count,
        op == ReduceOp::Sum ==> sums_fit(int_cells(rows@, idx as int)),
    ensures
        r == if int_cells(rows@, idx as int).len() == 0 {
            None
        } else {
            Some(int_reduction(op, int_cells(rows@, idx as int)))
        },
{
    let ghost all = int_cells(rows@, idx as int);
    let mut acc: Option<i64> = None;
    let mut i: usize = 0;
    while i < rows.len()
        invariant
            i <= rows.len(),
            op != ReduceOp::Count,
            all == int_cells(rows@, idx as int),
            op == ReduceOp::Sum ==> sums_fit(all),
            acc == if int_cells(rows@.subrange(0, i as int), idx as int).len() == 0 {
                None
            } else {
                Some(int_reduction(op, int_cells(rows@.subrange(0, i as int), idx as int)))
            },
        decreases rows.len() - i,
    {
        let ghost seen = int_cells(rows@.subrange(0, i as int), idx as int);
        proof {
            lemma_cells_step(rows@, idx as int, i as int);
        }
        let row = &rows[i];
        if idx < row.len() {
            match &row[idx] {
                Value::Int64(v) => {
                    let v = *v;
                    let ghost now = seen.push(v);
                    proof {
                        assert(now.drop_last() =~= seen);
                        assert(int_cells(rows@.subrange(0, i + 1), idx as int) == now);
                        lemma_int_cells_prefix(rows@, idx as int, i as int + 1);
                        lemma_int_cells_prefix(rows@, idx as int, i as int);
                        lemma_int_sum_push(seen, v);
                        if op == ReduceOp::Sum {
                            assert(all.take(now.len() as int) == now);
                            assert(all.take(seen.len() as int) == seen);
                            assert(i64::MIN <= int_sum(all.take(now.len() as int)) <= i64::MAX);
                            assert(i64::MIN <= int_sum(all.take(seen.len() as int)) <= i64::MAX);
                        }
                    }
                    acc = match acc {
                        None => Some(v),
                        Some(a) => Some(
                            match op {
                                ReduceOp::Min => if v < a {
                                    v
                                } else {
                                    a
                                },
                                ReduceOp::Max => if v > a {
                                    v
                                } else {
                                    a
                                },
                                _ => a + v,
                            },
                        ),
                    };
                    proof {
                        if seen.len() == 0 {
                            assert(now =~= seq![v]);
                            assert(now.drop_last() =~= Seq::<i64>::empty());
                        }
                    }
                },
                _ => {},
            }
        }
        i += 1;
    }
    proof {
        assert(rows@.subrange(0, rows@.len() as int) =~= rows@);
    }
    acc
}

proof fn lemma_float_fold_step<C: Fn(ReduceOp, u64, u64) -> u64>(
    c: C,
    op: ReduceOp,
    seen: Seq<u64>,
    b: u64,
    next: u64,
)
    requires
        is_pure_combiner(c),
        seen.len() > 0,
        c.ensures((op, float_fold(c, op, seen), b), next),
    ensures
        float_fold(c, op, seen.push(b)) == next,
{
    assert(seen.push(b).drop_last() =~= seen);
    let acc = float_fold(c, op, seen);
    let r = choose|r: u64| c.ensures((op, acc, b), r);
    assert(c.ensures((op, acc, b), r));
}

/// The combiner folded over the float cells at `idx`; `None` when there are none.
fn reduce_float_column<C: Fn(ReduceOp, u64, u64) -> u64>(
    rows: &Vec<Vec<Value>>,
    idx: usize,
    op: ReduceOp,
    combine: &C,
) -> (r: Option<u64>)
    requires
        is_pure_combiner(*combine),
    ensures
        r == if float_cells(rows@, idx as int).len() == 0 {
            None
        } else {
            Some(float_fold(*combine, op, float_cells(rows@, idx as int)))
        },
{
    let mut acc: Option<u64> = None;
    let mut i: usize = 0;
    while i < rows.len()
        invariant
            i <= rows.len(),
            is_pure_combiner(*combine),
            acc == if float_cells(rows@.subrange(0, i as int), idx as int).len() == 0 {
                None
            } else {
                Some(float_fold(*combine, op, float_cells(rows@.subrange(0, i as int), idx as int)))
            },
        decreases rows.len() - i,
    {
        let ghost seen = float_cells(rows@.subrange(0, i as int), idx as int);
        proof {
            lemma_cells_step(rows@, idx as int, i as int);
        }
        let row = &rows[i];
        if idx < row.len() {
            match &row[idx] {
                Value::Float64(b) => {
                    let b = *b;
                    acc = match acc {
                        None => {
                            proof {
                                assert(seen.push(b) =~= seq![b]);
                            }
                            Some(b)
                        },
                        Some(a) => {
                            let next = combine(op, a, b);
                            proof {
                                lemma_float_fold_step(*combine, op, seen, b, next);
                            }
                            Some(next)
                        },
                    };
                },
                _ => {},
            }
        }
        i += 1;
    }
    proof {
        assert(rows@.subrange(0, rows@.len() as int) =~= rows@);
    }
    acc
}

/// Whether every running sum of the integer cells at `idx` fits in an `i64`,
/// so that a `Sum` over them is defined.
pub fn column_sums_fit(rows: &Vec<Vec<Value>>, idx: usize) -> (r: bool)
    ensures
        r == sums_fit(int_cells(rows@, idx as int)),
{
    let ghost all = int_cells(rows@, idx as int);
    let mut acc: i64 = 0;
    let mut i: usize = 0;
    proof {
        assert(all.take(0) =~= Seq::<i64>::empty());
    }
    while i < rows.len()
        invariant
            i <= rows.len(),
            all == int_cells(rows@, idx as int),
            int_cells(rows@.subrange(0, i as int), idx as int).len() <= all.len(),
            int_cells(rows@.subrange(0, i as int), idx as int) == all.take(
                int_cells(rows@.subrange(0, i as int), idx as int).len() as int,
            ),
            acc == int_sum(int_cells(rows@.subrange(0, i as int), idx as int)),
            forall|k: int|
                0 <= k <= int_cells(rows@.subrange(0, i as int), idx as int).len() ==> i64::MIN
                    <= #[trigger] int_sum(all.take(k)) <= i64::MAX,
        decreases rows.len() - i,
    {
        let ghost seen = int_cells(rows@.subrange(0, i as int), idx as int);
        proof {
            lemma_cells_step(rows@, idx as int, i as int);
            lemma_int_cells_prefix(rows@, idx as int, i as int + 1);
        }
        let row = &rows[i];
        if idx < row.len() {
            match &row[idx] {
                Value::Int64(v) => {
                    let v = *v;
                    let ghost now = seen.push(v);
                    proof {
                        lemma_int_sum_push(seen, v);
                        assert(all.take(now.len() as int) == now);
                    }
                    if (v > 0 && acc > i64::MAX - v) || (v < 0 && acc < i64::MIN - v) {
                        return false;
                    }
                    acc = acc + v;
                },
                _ => {},
            }
        }
        i += 1;
    }
    proof {
        assert(rows@.subrange(0, rows@.len() as int) =~= rows@);
        assert(all.take(all.len() as int) =~= all);
    }
    true
}

/// Reduces column `column` of `dataset` with `op`.
///
/// `None` when the schema has no such column. `Count` gives the number of rows.
/// `Sum`, `Min` and `Max` skip nulls and give `Null` when nothing is left; on an
/// `Int64` column they compute on the integers, on a `Float64` column they fold
/// the values' bit patterns with `float_combine`, and on other columns they give
/// `Null`.
pub fn reduce<C: Fn(ReduceOp, u64, u64) -> u64>(
    dataset: &DataSet,
    column: &str,
    op: ReduceOp,
    float_combine: C,
) -> (r: Option<Value>)
    requires
        is_pure_combiner(float_combine),
        dataset.rows@.len() <= i64::MAX,
        forall|idx: int|
            #[trigger] is_first_named(dataset.schema.fields@, column@, idx) && op == ReduceOp::Sum
                && dataset.schema.fields@[idx].data_type == DataType::Int64 ==> sums_fit(
                int_cells(dataset.rows@, idx),
            ),
    ensures
        (forall|j: int| 0 <= j < dataset.schema.fields@.len() ==> dataset.schema.fields@[j].name@ != column@)
            ==> r is None,
        forall|idx: int| #[trigger]
            is_first_named(dataset.schema.fields@, column@, idx) ==> r == Some(
                column_reduction(dataset.schema.fields@, dataset.rows@, idx, op, float_combine),
            ),
{
    let idx = match dataset.schema.index_of(column) {
        Some(i) => i,
        None => return None,
    };
    proof {
        assert(is_first_named(dataset.schema.fields@, column@, idx as int));
        assert forall|k: int| #[trigger] is_first_named(dataset.schema.fields@, column@, k) implies k
            == idx by {
            if k < idx {
                assert(dataset.schema.fields@[k].name@ != column@);
            } else if k > idx {
                assert(dataset.schema.fields@[idx as int].name@ != column@);
            }
        }
    }
    match op {
        ReduceOp::Count => Some(Value::Int64(dataset.rows.len() as i64)),
        _ => match dataset.schema.fields[idx].data_type {
            DataType::Int64 => match reduce_int_column(&dataset.rows, idx, op) {
                Some(v) => Some(Value::Int64(v)),
                None => Some(Value::Null),
            },
            DataType::Float64 => match reduce_float_column(&dataset.rows, idx, op, &float_combine) {
                Some(b) => Some(Value::Float64(b)),
                None => Some(Value::Null),
            },
            _ => Some(Value::Null),
        },
    }
}

} // verus!
