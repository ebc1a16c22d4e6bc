//! Partitioning of a table's rows into contiguous chunks.
use std::ops::Range;
use vstd::prelude::*;

verus! {

/// Number of chunks of at most `chunk_size` rows that cover `row_count` rows.
pub open spec fn chunk_count(row_count: nat, chunk_size: nat) -> nat
    recommends
        chunk_size > 0,
{
    if chunk_size == 0 {
        0
    } else {
        ((row_count + chunk_size - 1) as nat / chunk_size) as nat
    }
}

/// The `i`-th chunk covers rows `[i * chunk_size, min((i + 1) * chunk_size, row_count))`.
pub open spec fn is_chunk(r: Range<usize>, i: int, row_count: int, chunk_size: int) -> bool {
    &&& r.start == i * chunk_size
    &&& r.end == if (i + 1) * chunk_size <= row_count {
        (i + 1) * chunk_size
    } else {
        row_count
    }
}

/// Splits rows `[0, row_count)` into consecutive ranges of `chunk_size` rows,
/// the last one possibly shorter. No rows give no chunks.
pub fn chunk_ranges(row_count: usize, chunk_size: usize) -> (r: Vec<Range<usize>>)
    requires
        chunk_size > 0,
    ensures
        r.len() == chunk_count(row_count as nat, chunk_size as nat),
        forall|i: int| 0 <= i < r.len() ==> is_chunk(#[trigger] r[i], i, row_count as int, chunk_size as int),
        forall|i: int| 0 <= i < r.len() ==> #[trigger] r[i].start < r[i].end <= row_count,
        forall|i: int| 0 <= i < r.len() ==> #[trigger] r[i].end - r[i].start <= chunk_size,
        forall|i: int| 0 < i < r.len() ==> r[i].start == #[trigger] r[i - 1].end,
        r.len() == 0 <==> row_count == 0,
        r.len() > 0 ==> r[0].start == 0 && r[r.len() - 1].end == row_count,
{
    let mut out: Vec<Range<usize>> = Vec::new();
    let mut start: usize = 0;
    assert(0 * chunk_size == 0) by (nonlinear_arith);
    while start < row_count
        invariant
            chunk_size > 0,
            start <= row_count,
            start < row_count ==> start == out.len() * chunk_size,
            out.len() == 0 ==> start == 0,
            forall|i: int| 0 <= i < out.len() ==> is_chunk(#[trigger] out[i], i, row_count as int, chunk_size as int),
            forall|i: int| 0 <= i < out.len() ==> #[trigger] out[i].start < out[i].end <= row_count,
            forall|i: int| 0 <= i < out.len() ==> #[trigger] out[i].end - out[i].start <= chunk_size,
            forall|i: int| 0 < i < out.len() ==> out[i].start == #[trigger] out[i - 1].end,
            out.len() > 0 ==> out[out.len() - 1].end == start,
        decreases row_count - start,
    {
        let end: usize = if row_count - start >= chunk_size {
            start + chunk_size
        } else {
            row_count
        };
        proof {
            let n = out.len() as int;
            assert((n + 1) * chunk_size == n * chunk_size + chunk_size) by (nonlinear_arith);
        }
        out.push(start..end);
        start = end;
    }
    proof {
        let n = out.len() as int;
        let c = chunk_size as int;
        let rc = row_count as int;
        if n > 0 {
            assert(is_chunk(out[n - 1], n - 1, rc, c));
            assert((n - 1 + 1) * c == n * c) by (nonlinear_arith);
        }
        lemma_chunk_count(rc, c, n);
    }
    out
}

proof fn lemma_chunk_count(rc: int, c: int, n: int)
    requires
        c > 0,
        rc >= 0,
        n >= 0,
        n == 0 ==> rc == 0,
        n > 0 ==> (n - 1) * c < rc <= n * c,
    ensures
        n == chunk_count(rc as nat, c as nat),
{
    if n == 0 {
        assert((c - 1) / c == 0) by (nonlinear_arith) requires c > 0;
    } else {
        assert((rc + c - 1) / c == n) by (nonlinear_arith)
            requires c > 0, n > 0, (n - 1) * c < rc, rc <= n * c;
    }
}

/// Index of the chunk that holds `row`.
pub open spec fn chunk_of(row: int, chunk_size: int) -> int {
    row / chunk_size
}

/// The chunks of [`chunk_ranges`] partition `[0, row_count)`: every row lies in
/// exactly one chunk, and earlier chunks hold earlier rows.
pub proof fn lemma_chunks_partition_rows(ranges: Seq<Range<usize>>, row_count: int, chunk_size: int)
    requires
        chunk_size > 0,
        row_count >= 0,
        ranges.len() == chunk_count(row_count as nat, chunk_size as nat),
        forall|i: int| 0 <= i < ranges.len() ==> is_chunk(#[trigger] ranges[i], i, row_count, chunk_size),
    ensures
        forall|row: int| 0 <= row < row_count ==> {
            let i = #[trigger] chunk_of(row, chunk_size);
            &&& 0 <= i < ranges.len()
            &&& ranges[i].start <= row < ranges[i].end
        },
        forall|i: int, j: int| 0 <= i < j < ranges.len() ==> #[trigger] ranges[i].end <= #[trigger] ranges[j].start,
        forall|i: int| 0 <= i < ranges.len() ==> 0 <= #[trigger] ranges[i].start < ranges[i].end <= row_count,
{
    assert forall|row: int| 0 <= row < row_count implies {
        let i = #[trigger] chunk_of(row, chunk_size);
        &&& 0 <= i < ranges.len()
        &&& ranges[i].start <= row < ranges[i].end
    } by {
        let i = row / chunk_size;
        assert(i * chunk_size <= row < (i + 1) * chunk_size && i >= 0) by (nonlinear_arith)
            requires i == row / chunk_size, chunk_size > 0, row >= 0;
        assert(i < (row_count + chunk_size - 1) / chunk_size) by (nonlinear_arith)
            requires i * chunk_size <= row, row < row_count, chunk_size > 0, i >= 0;
        assert(is_chunk(ranges[i], i, row_count, chunk_size));
    }
    assert forall|i: int, j: int| 0 <= i < j < ranges.len() implies #[trigger] ranges[i].end
        <= #[trigger] ranges[j].start by {
        assert(is_chunk(ranges[i], i, row_count, chunk_size));
        assert(is_chunk(ranges[j], j, row_count, chunk_size));
        assert((i + 1) * chunk_size <= j * chunk_size) by (nonlinear_arith)
            requires i < j, chunk_size > 0;
    }
    assert forall|i: int| 0 <= i < ranges.len() implies 0 <= #[trigger] ranges[i].start < ranges[i].end
        <= row_count by {
        assert(is_chunk(ranges[i], i, row_count, chunk_size));
        assert(i * chunk_size >= 0) by (nonlinear_arith)
            requires i >= 0, chunk_size > 0;
        assert(i < (row_count + chunk_size - 1) / chunk_size);
        assert((i + 1) * chunk_size == i * chunk_size + chunk_size) by (nonlinear_arith);
        assert(i * chunk_size < row_count) by (nonlinear_arith)
            requires i < (row_count + chunk_size - 1) / chunk_size, chunk_size > 0, i >= 0;
    }
}

} // verus!
