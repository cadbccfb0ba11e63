//! Row-major storage.
//!
//! Activations are time-major: a buffer of `n` frames of `w` channels is `n` rows of `w` values,
//! one after the other. Contracts speak of the rows; buffers are flat only at the interface.
use vstd::prelude::*;
use vstd::slice::{slice_subrange, slice_to_vec};

verus! {

/// Row `i` of a flat buffer of rows of width `w`.
pub open spec fn row<T>(x: Seq<T>, i: int, w: int) -> Seq<T> {
    x.subrange(i * w, i * w + w)
}

/// The first `n` rows of width `w` of a flat buffer.
pub open spec fn unstack<T>(x: Seq<T>, n: int, w: int) -> Seq<Seq<T>> {
    Seq::new(n as nat, |i: int| row(x, i, w))
}

/// That every row has width `w`.
pub open spec fn uniform<T>(rows: Seq<Seq<T>>, w: int) -> bool {
    forall|i: int| 0 <= i < rows.len() ==> (#[trigger] rows[i]).len() == w
}

/// The contents of a vector of rows.
pub open spec fn deep<T>(rows: Seq<Vec<T>>) -> Seq<Seq<T>> {
    Seq::new(rows.len(), |i: int| rows[i]@)
}

/// `n` copies of one value.
pub open spec fn filled<T>(n: int, value: T) -> Seq<T> {
    Seq::new(n as nat, |i: int| value)
}

/// A product of two indices below their bounds stays below the product of the bounds.
pub proof fn lemma_row_bounds(i: int, n: int, w: int)
    requires
        0 <= i < n,
        0 <= w,
    ensures
        0 <= i * w,
        i * w + w <= n * w,
{
    assert(0 <= i * w && i * w + w <= n * w) by (nonlinear_arith)
        requires
            0 <= i < n,
            0 <= w,
    ;
}

/// Rows of width `w` laid end to end take `w` places each.
pub proof fn lemma_flatten_len<T>(rows: Seq<Seq<T>>, w: int)
    requires
        uniform(rows, w),
    ensures
        rows.flatten().len() == rows.len() * w,
    decreases rows.len(),
{
    if rows.len() > 0 {
        let front = rows.drop_last();
        lemma_flatten_len(front, w);
        assert(rows =~= front.push(rows.last()));
        front.lemma_flatten_push(rows.last());
        assert(front.len() * w + w == rows.len() * w) by (nonlinear_arith)
            requires
                front.len() == rows.len() - 1,
        ;
    } else {
        assert(rows.len() * w == 0) by (nonlinear_arith)
            requires
                rows.len() == 0,
        ;
    }
}

/// Reading row `i` out of the flat buffer gives back row `i`.
pub proof fn lemma_flatten_row<T>(rows: Seq<Seq<T>>, w: int, i: int)
    requires
        uniform(rows, w),
        0 <= i < rows.len(),
    ensures
        row(rows.flatten(), i, w) == rows[i],
        i * w + w <= rows.flatten().len(),
        0 <= i * w,
    decreases rows.len(),
{
    let front = rows.drop_last();
    assert(rows =~= front.push(rows.last()));
    front.lemma_flatten_push(rows.last());
    lemma_flatten_len(front, w);
    lemma_flatten_len(rows, w);
    lemma_row_bounds(i, rows.len() as int, w);
    if i < front.len() {
        lemma_flatten_row(front, w, i);
        assert(row(rows.flatten(), i, w) =~= row(front.flatten(), i, w));
    } else {
        assert(i == front.len());
        assert(row(rows.flatten(), i, w) =~= rows[i]);
    }
}

/// Splitting the flat buffer of some rows gives those rows.
pub proof fn lemma_unstack_flatten<T>(rows: Seq<Seq<T>>, w: int)
    requires
        uniform(rows, w),
    ensures
        unstack(rows.flatten(), rows.len() as int, w) == rows,
{
    assert forall|i: int| 0 <= i < rows.len() implies row(rows.flatten(), i, w) == rows[i] by {
        lemma_flatten_row(rows, w, i);
    }
    assert(unstack(rows.flatten(), rows.len() as int, w) =~= rows);
}

/// Laying the rows of a buffer end to end gives the buffer.
pub proof fn lemma_flatten_unstack<T>(x: Seq<T>, n: int, w: int)
    requires
        0 <= n,
        0 <= w,
        x.len() == n * w,
    ensures
        unstack(x, n, w).flatten() == x,
        uniform(unstack(x, n, w), w),
    decreases n,
{
    let rows = unstack(x, n, w);
    assert forall|i: int| 0 <= i < rows.len() implies (#[trigger] rows[i]).len() == w by {
        lemma_row_bounds(i, n, w);
    }
    if n > 0 {
        lemma_row_bounds(n - 1, n, w);
        assert((n - 1) * w + w == n * w) by (nonlinear_arith);
        let front = x.subrange(0, (n - 1) * w);
        lemma_flatten_unstack(front, n - 1, w);
        assert forall|i: int| 0 <= i < n - 1 implies row(x, i, w) == row(front, i, w) by {
            lemma_row_bounds(i, n - 1, w);
            assert(row(x, i, w) =~= row(front, i, w));
        }
        assert(rows.drop_last() =~= unstack(front, n - 1, w));
        assert(rows =~= rows.drop_last().push(rows.last()));
        rows.drop_last().lemma_flatten_push(rows.last());
        assert(x =~= front + row(x, n - 1, w));
    } else {
        assert(n * w == 0) by (nonlinear_arith)
            requires
                n == 0,
        ;
        assert(rows.flatten() =~= x);
    }
}

/// Row `i` of a flat buffer.
pub fn row_of<T>(x: &[T], i: usize, w: usize) -> (r: &[T])
    requires
        i * w + w <= x@.len(),
    ensures
        r@ == row(x@, i as int, w as int),
        r@.len() == w,
{
    proof {
        assert(0 <= i * w) by (nonlinear_arith);
        assert(x.len() == x@.len());
    }
    let start: usize = i * w;
    slice_subrange(x, start, start + w)
}

/// The rows of a flat buffer.
pub fn split_rows<T: Copy>(x: &[T], n: usize, w: usize) -> (rows: Vec<Vec<T>>)
    requires
        x@.len() == n * w,
    ensures
        deep(rows@) == unstack(x@, n as int, w as int),
        uniform(deep(rows@), w as int),
{
    let mut rows: Vec<Vec<T>> = Vec::new();
    for i in 0..n
        invariant
            x@.len() == n * w,
            rows@.len() == i,
            forall|j: int| 0 <= j < i ==> (#[trigger] rows@[j])@ == row(x@, j, w as int),
    {
        proof {
            lemma_row_bounds(i as int, n as int, w as int);
        }
        rows.push(slice_to_vec(row_of(x, i, w)));
    }
    proof {
        lemma_flatten_unstack(x@, n as int, w as int);
        assert(deep(rows@) =~= unstack(x@, n as int, w as int));
    }
    rows
}

/// Appends one row to a flat buffer.
pub fn append_row<T: Copy>(out: &mut Vec<T>, values: &[T])
    ensures
        final(out)@ == old(out)@ + values@,
{
    for i in 0..values.len()
        invariant
            out@ == old(out)@ + values@.subrange(0, i as int),
    {
        out.push(values[i]);
        proof {
            assert(out@ =~= old(out)@ + values@.subrange(0, i + 1));
        }
    }
    proof {
        assert(values@.subrange(0, values@.len() as int) =~= values@);
    }
}

/// Rows laid end to end.
pub fn join_rows<T: Copy>(rows: &Vec<Vec<T>>) -> (out: Vec<T>)
    ensures
        out@ == deep(rows@).flatten(),
{
    let mut out: Vec<T> = Vec::new();
    proof {
        assert(deep(rows@).take(0) =~= Seq::<Seq<T>>::empty());
    }
    for i in 0..rows.len()
        invariant
            out@ == deep(rows@).take(i as int).flatten(),
    {
        append_row(&mut out, rows[i].as_slice());
        proof {
            let done = deep(rows@).take(i as int);
            assert(deep(rows@).take(i + 1) =~= done.push(rows@[i as int]@));
            done.lemma_flatten_push(rows@[i as int]@);
        }
    }
    proof {
        assert(deep(rows@).take(rows@.len() as int) =~= deep(rows@));
    }
    out
}

/// Overwrites a buffer with equally many values.
pub fn store<T: Copy>(out: &mut [T], values: &[T])
    requires
        old(out)@.len() == values@.len(),
    ensures
        final(out)@ == values@,
{
    for i in 0..values.len()
        invariant
            out@.len() == values@.len(),
            forall|j: int| 0 <= j < i ==> out@[j] == values@[j],
    {
        out[i] = values[i];
    }
    proof {
        assert(out@ =~= values@);
    }
}

/// `n` copies of one value.
pub fn fill<T: Copy>(n: usize, value: T) -> (out: Vec<T>)
    ensures
        out@ == filled(n as int, value),
{
    let mut out: Vec<T> = Vec::new();
    for i in 0..n
        invariant
            out@ == filled(i as int, value),
    {
        out.push(value);
        proof {
            assert(out@ =~= filled(i + 1, value));
        }
    }
    out
}

/// A copy of some rows.
pub fn copy_rows<T: Copy>(x: &Vec<Vec<T>>) -> (out: Vec<Vec<T>>)
    ensures
        deep(out@) == deep(x@),
{
    let mut out: Vec<Vec<T>> = Vec::new();
    for i in 0..x.len()
        invariant
            out@.len() == i,
            forall|j: int| 0 <= j < i ==> (#[trigger] out@[j])@ == x@[j]@,
    {
        out.push(slice_to_vec(x[i].as_slice()));
    }
    proof {
        assert(deep(out@) =~= deep(x@));
    }
    out
}

/// Two lists of rows, one after the other.
pub fn concat_rows<T: Copy>(a: &Vec<Vec<T>>, b: &Vec<Vec<T>>) -> (out: Vec<Vec<T>>)
    ensures
        deep(out@) == deep(a@) + deep(b@),
{
    let mut out: Vec<Vec<T>> = Vec::new();
    for i in 0..a.len()
        invariant
            out@.len() == i,
            forall|j: int| 0 <= j < i ==> (#[trigger] out@[j])@ == a@[j]@,
    {
        out.push(slice_to_vec(a[i].as_slice()));
    }
    for i in 0..b.len()
        invariant
            out@.len() == a@.len() + i,
            forall|j: int| 0 <= j < a@.len() ==> (#[trigger] out@[j])@ == a@[j]@,
            forall|j: int| a@.len() <= j < out@.len() ==> (#[trigger] out@[j])@ == b@[j - a@.len()]@,
    {
        out.push(slice_to_vec(b[i].as_slice()));
    }
    proof {
        assert(deep(out@) =~= deep(a@) + deep(b@));
    }
    out
}

/// The rows from index `from` on.
pub fn tail_rows<T: Copy>(x: &Vec<Vec<T>>, from: usize) -> (out: Vec<Vec<T>>)
    requires
        from <= x@.len(),
    ensures
        deep(out@) == deep(x@).skip(from as int),
        out@.len() == x@.len() - from,
{
    let mut out: Vec<Vec<T>> = Vec::new();
    for i in from..x.len()
        invariant
            from <= x@.len(),
            from <= i,
            out@.len() == i - from,
            forall|j: int| 0 <= j < out@.len() ==> (#[trigger] out@[j])@ == x@[from + j]@,
    {
        out.push(slice_to_vec(x[i].as_slice()));
    }
    proof {
        assert(deep(out@) =~= deep(x@).skip(from as int));
    }
    out
}

/// Rows taken from uniform rows are uniform.
pub proof fn lemma_uniform_skip<T>(rows: Seq<Seq<T>>, from: int, w: int)
    requires
        uniform(rows, w),
        0 <= from <= rows.len(),
    ensures
        uniform(rows.skip(from), w),
{
    assert forall|i: int| 0 <= i < rows.skip(from).len() implies (#[trigger] rows.skip(from)[i]).len()
        == w by {
        assert(rows[from + i].len() == w);
    }
}

/// Uniform rows followed by uniform rows are uniform.
pub proof fn lemma_uniform_concat<T>(a: Seq<Seq<T>>, b: Seq<Seq<T>>, w: int)
    requires
        uniform(a, w),
        uniform(b, w),
    ensures
        uniform(a + b, w),
{
    assert forall|i: int| 0 <= i < (a + b).len() implies (#[trigger] (a + b)[i]).len() == w by {
        if i < a.len() {
            assert(a[i].len() == w);
        } else {
            assert(b[i - a.len()].len() == w);
        }
    }
}

} // verus!
