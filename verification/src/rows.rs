//! Moving the elements of arrays: merging a gradient into a buffer, picking
//! rows, and exchanging rows and columns.
//!
//! Arrays are given by their elements row after row. The functions move
//! elements and never compute on them; where gradients have to be added,
//! the caller supplies the addition.

use crate::counter::BackwardAction;
use crate::stack::{at, lemma_at, lemma_at_all, lemma_rows_apart, merge, merged, merged_all};
use vstd::prelude::*;

verus! {

/// Merges a gradient into a buffer of the same length, element by element:
/// the buffer is assigned or incremented as `op` says.
pub fn merge_into<T: Copy, F: Fn(T, T) -> T>(
    buffer: &mut Vec<T>,
    gradient: &[T],
    op: &BackwardAction,
    plus: F,
)
    requires
        gradient@.len() == old(buffer)@.len(),
        *op is Increment ==> forall|a: T, b: T| plus.requires((a, b)),
    ensures
        merged_all(old(buffer)@, gradient@, final(buffer)@, *op, plus),
{
    let n: usize = buffer.len();
    let mut i: usize = 0;
    while i < n
        invariant
            n == buffer@.len(),
            buffer@.len() == old(buffer)@.len(),
            gradient@.len() == n,
            i <= n,
            *op is Increment ==> forall|a: T, b: T| plus.requires((a, b)),
            forall|k: int| i <= k < n ==> buffer@[k] == old(buffer)@[k],
            forall|k: int|
                0 <= k < i ==> merged(old(buffer)@[k], gradient@[k], #[trigger] buffer@[k], *op, plus),
        decreases n - i,
    {
        let value = merge(buffer[i], gradient[i], op, &plus);
        buffer[i] = value;
        i += 1;
    }
}

/// Row `k` of `dest` is the row of `source` that index `k` names, in arrays
/// with `cols` columns.
pub open spec fn selected_rows<T>(
    dest: Seq<T>,
    source: Seq<T>,
    indices: Seq<usize>,
    cols: int,
) -> bool {
    &&& dest.len() == indices.len() * cols
    &&& forall|k: int, c: int|
        0 <= k < indices.len() && 0 <= c < cols ==> #[trigger] dest[at(cols, k, c)] == source[at(
            cols,
            indices[k] as int,
            c,
        )]
}

/// Copies the rows of `source` that `indices` names to the rows of `dest`,
/// in the order of the indices.
pub fn select_rows<T: Copy>(
    dest: &mut Vec<T>,
    source: &[T],
    indices: &[usize],
    rows: usize,
    cols: usize,
)
    requires
        source@.len() == rows * cols,
        old(dest)@.len() == indices@.len() * cols,
        forall|k: int| 0 <= k < indices@.len() ==> indices@[k] < rows,
    ensures
        selected_rows(final(dest)@, source@, indices@, cols as int),
{
    let count: usize = indices.len();
    let total: usize = dest.len();
    let size: usize = source.len();
    proof {
        lemma_at_all(count as int, cols as int);
        lemma_at_all(rows as int, cols as int);
    }
    let mut k: usize = 0;
    let mut d: usize = 0;
    while k < count
        invariant
            count == indices@.len(),
            source@.len() == rows * cols,
            source@.len() == size,
            dest@.len() == count * cols,
            dest@.len() == total,
            forall|j: int| 0 <= j < indices@.len() ==> indices@[j] < rows,
            forall|q: int, e: int|
                0 <= q < count && 0 <= e < cols ==> 0 <= #[trigger] at(cols as int, q, e) < count
                    * cols,
            forall|q: int, e: int|
                0 <= q < rows && 0 <= e < cols ==> 0 <= #[trigger] at(cols as int, q, e) < rows
                    * cols,
            k <= count,
            d == k * cols,
            forall|q: int, e: int|
                0 <= q < k && 0 <= e < cols ==> #[trigger] dest@[at(cols as int, q, e)]
                    == source@[at(cols as int, indices@[q] as int, e)],
        decreases count - k,
    {
        let row: usize = indices[k];
        let mut c: usize = 0;
        while c < cols
            invariant
                count == indices@.len(),
                source@.len() == rows * cols,
                source@.len() == size,
                dest@.len() == count * cols,
                dest@.len() == total,
                forall|q: int, e: int|
                    0 <= q < count && 0 <= e < cols ==> 0 <= #[trigger] at(cols as int, q, e)
                        < count * cols,
                forall|q: int, e: int|
                    0 <= q < rows && 0 <= e < cols ==> 0 <= #[trigger] at(cols as int, q, e) < rows
                        * cols,
                k < count,
                row == indices@[k as int],
                row < rows,
                c <= cols,
                d == k * cols + c,
                forall|q: int, e: int|
                    0 <= q < k && 0 <= e < cols ==> #[trigger] dest@[at(cols as int, q, e)]
                        == source@[at(cols as int, indices@[q] as int, e)],
                forall|e: int|
                    0 <= e < c ==> #[trigger] dest@[at(cols as int, k as int, e)] == source@[at(
                        cols as int,
                        row as int,
                        e,
                    )],
            decreases cols - c,
        {
            proof {
                lemma_at(rows as int, cols as int, row as int, c as int);
                lemma_rows_apart(cols as int, k as int, c as int);
                assert(0 <= row * cols) by (nonlinear_arith)
                    requires
                        0 <= row,
                        0 <= cols,
                ;
            }
            assert(d == at(cols as int, k as int, c as int));
            let s: usize = row * cols + c;
            assert(s == at(cols as int, row as int, c as int));
            dest[d] = source[s];
            d += 1;
            c += 1;
        }
        proof {
            assert((k + 1) * cols == k * cols + cols) by (nonlinear_arith);
        }
        k += 1;
    }
}

/// `dest` is `source`, an array with `rows` rows and `cols` columns, with
/// rows and columns exchanged.
pub open spec fn transposed<T>(dest: Seq<T>, source: Seq<T>, rows: int, cols: int) -> bool {
    &&& dest.len() == cols * rows
    &&& forall|c: int, r: int|
        0 <= c < cols && 0 <= r < rows ==> #[trigger] dest[at(rows, c, r)] == source[at(cols, r, c)]
}

/// Writes `source`, an array with `rows` rows and `cols` columns, with rows
/// and columns exchanged to `dest`.
pub fn transpose_into<T: Copy>(dest: &mut Vec<T>, source: &[T], rows: usize, cols: usize)
    requires
        source@.len() == rows * cols,
        old(dest)@.len() == cols * rows,
    ensures
        transposed(final(dest)@, source@, rows as int, cols as int),
{
    let total: usize = dest.len();
    let size: usize = source.len();
    proof {
        lemma_at_all(cols as int, rows as int);
        lemma_at_all(rows as int, cols as int);
    }
    let mut c: usize = 0;
    let mut d: usize = 0;
    while c < cols
        invariant
            source@.len() == rows * cols,
            source@.len() == size,
            dest@.len() == cols * rows,
            dest@.len() == total,
            forall|q: int, e: int|
                0 <= q < cols && 0 <= e < rows ==> 0 <= #[trigger] at(rows as int, q, e) < cols
                    * rows,
            forall|q: int, e: int|
                0 <= q < rows && 0 <= e < cols ==> 0 <= #[trigger] at(cols as int, q, e) < rows
                    * cols,
            c <= cols,
            d == c * rows,
            forall|q: int, e: int|
                0 <= q < c && 0 <= e < rows ==> #[trigger] dest@[at(rows as int, q, e)]
                    == source@[at(cols as int, e, q)],
        decreases cols - c,
    {
        let mut r: usize = 0;
        while r < rows
            invariant
                source@.len() == rows * cols,
                source@.len() == size,
                dest@.len() == cols * rows,
                dest@.len() == total,
                forall|q: int, e: int|
                    0 <= q < cols && 0 <= e < rows ==> 0 <= #[trigger] at(rows as int, q, e) < cols
                        * rows,
                forall|q: int, e: int|
                    0 <= q < rows && 0 <= e < cols ==> 0 <= #[trigger] at(cols as int, q, e) < rows
                        * cols,
                c < cols,
                r <= rows,
                d == c * rows + r,
                forall|q: int, e: int|
                    0 <= q < c && 0 <= e < rows ==> #[trigger] dest@[at(rows as int, q, e)]
                        == source@[at(cols as int, e, q)],
                forall|e: int|
                    0 <= e < r ==> #[trigger] dest@[at(rows as int, c as int, e)] == source@[at(
                        cols as int,
                        e,
                        c as int,
                    )],
            decreases rows - r,
        {
            proof {
                lemma_at(rows as int, cols as int, r as int, c as int);
                lemma_rows_apart(rows as int, c as int, r as int);
                assert(0 <= r * cols) by (nonlinear_arith)
                    requires
                        0 <= r,
                        0 <= cols,
                ;
            }
            assert(d == at(rows as int, c as int, r as int));
            let s: usize = r * cols + c;
            assert(s == at(cols as int, r as int, c as int));
            dest[d] = source[s];
            d += 1;
            r += 1;
        }
        proof {
            assert((c + 1) * rows == c * rows + rows) by (nonlinear_arith);
        }
        c += 1;
    }
}

/// The buffer `after`, of `rows` rows and `cols` columns, has the gradient,
/// with rows and columns exchanged, merged into it.
pub open spec fn merged_transposed<T, F: Fn(T, T) -> T>(
    before: Seq<T>,
    gradient: Seq<T>,
    after: Seq<T>,
    rows: int,
    cols: int,
    op: BackwardAction,
    plus: F,
) -> bool {
    &&& after.len() == before.len()
    &&& forall|r: int, c: int|
        0 <= r < rows && 0 <= c < cols ==> merged(
            before[at(cols, r, c)],
            gradient[at(rows, c, r)],
            #[trigger] after[at(cols, r, c)],
            op,
            plus,
        )
}

/// Merges the gradient of a transposed array, which has `cols` rows and
/// `rows` columns, into the gradient buffer of the array itself.
pub fn transpose_gradient<T: Copy, F: Fn(T, T) -> T>(
    gradient: &[T],
    buffer: &mut Vec<T>,
    rows: usize,
    cols: usize,
    op: &BackwardAction,
    plus: F,
)
    requires
        old(buffer)@.len() == rows * cols,
        gradient@.len() == cols * rows,
        *op is Increment ==> forall|a: T, b: T| plus.requires((a, b)),
    ensures
        merged_transposed(
            old(buffer)@,
            gradient@,
            final(buffer)@,
            rows as int,
            cols as int,
            *op,
            plus,
        ),
{
    let total: usize = buffer.len();
    let size: usize = gradient.len();
    proof {
        lemma_at_all(cols as int, rows as int);
        lemma_at_all(rows as int, cols as int);
    }
    let mut r: usize = 0;
    let mut d: usize = 0;
    while r < rows
        invariant
            buffer@.len() == rows * cols,
            buffer@.len() == total,
            buffer@.len() == old(buffer)@.len(),
            gradient@.len() == cols * rows,
            gradient@.len() == size,
            *op is Increment ==> forall|a: T, b: T| plus.requires((a, b)),
            forall|q: int, e: int|
                0 <= q < cols && 0 <= e < rows ==> 0 <= #[trigger] at(rows as int, q, e) < cols
                    * rows,
            forall|q: int, e: int|
                0 <= q < rows && 0 <= e < cols ==> 0 <= #[trigger] at(cols as int, q, e) < rows
                    * cols,
            r <= rows,
            d == r * cols,
            forall|k: int| d <= k < buffer@.len() ==> buffer@[k] == old(buffer)@[k],
            forall|q: int, e: int|
                0 <= q < r && 0 <= e < cols ==> merged(
                    old(buffer)@[at(cols as int, q, e)],
                    gradient@[at(rows as int, e, q)],
                    #[trigger] buffer@[at(cols as int, q, e)],
                    *op,
                    plus,
                ),
        decreases rows - r,
    {
        let mut c: usize = 0;
        while c < cols
            invariant
                buffer@.len() == rows * cols,
                buffer@.len() == total,
                buffer@.len() == old(buffer)@.len(),
                gradient@.len() == cols * rows,
                gradient@.len() == size,
                *op is Increment ==> forall|a: T, b: T| plus.requires((a, b)),
                forall|q: int, e: int|
                    0 <= q < cols && 0 <= e < rows ==> 0 <= #[trigger] at(rows as int, q, e) < cols
                        * rows,
                forall|q: int, e: int|
                    0 <= q < rows && 0 <= e < cols ==> 0 <= #[trigger] at(cols as int, q, e) < rows
                        * cols,
                r < rows,
                c <= cols,
                d == r * cols + c,
                forall|k: int| d <= k < buffer@.len() ==> buffer@[k] == old(buffer)@[k],
                forall|q: int, e: int|
                    0 <= q < r && 0 <= e < cols ==> merged(
                        old(buffer)@[at(cols as int, q, e)],
                        gradient@[at(rows as int, e, q)],
                        #[trigger] buffer@[at(cols as int, q, e)],
                        *op,
                        plus,
                    ),
                forall|e: int|
                    0 <= e < c ==> merged(
                        old(buffer)@[at(cols as int, r as int, e)],
                        gradient@[at(rows as int, e, r as int)],
                        #[trigger] buffer@[at(cols as int, r as int, e)],
                        *op,
                        plus,
                    ),
            decreases cols - c,
        {
            proof {
                lemma_at(cols as int, rows as int, c as int, r as int);
                lemma_rows_apart(cols as int, r as int, c as int);
                assert(0 <= c * rows) by (nonlinear_arith)
                    requires
                        0 <= c,
                        0 <= rows,
                ;
            }
            assert(d == at(cols as int, r as int, c as int));
            let g: usize = c * rows + r;
            assert(g == at(rows as int, c as int, r as int));
            let value = merge(buffer[d], gradient[g], op, &plus);
            buffer[d] = value;
            d += 1;
            c += 1;
        }
        proof {
            assert((r + 1) * cols == r * cols + cols) by (nonlinear_arith);
        }
        r += 1;
    }
}

} // verus!
