//! Joining two arrays along an axis, and taking the gradient of the joined
//! array apart again.
//!
//! Arrays are given by their elements row after row. The functions move
//! elements and never compute on them; where gradients have to be added,
//! the caller supplies the addition.

use crate::counter::BackwardAction;
use vstd::prelude::*;

verus! {

/// Position of element `(r, c)` in an array with `cols` columns whose
/// elements are laid out row after row.
pub open spec fn at(cols: int, r: int, c: int) -> int {
    r * cols + c
}

/// An element of an array lies within the array's elements.
pub proof fn lemma_at(rows: int, cols: int, r: int, c: int)
    requires
        0 <= r < rows,
        0 <= c < cols,
    ensures
        0 <= at(cols, r, c) < rows * cols,
        at(cols, r, c) + (cols - c) <= rows * cols,
{
    assert(r * cols + cols <= rows * cols) by (nonlinear_arith)
        requires
            0 <= r < rows,
            0 <= cols,
    ;
    assert(0 <= r * cols) by (nonlinear_arith)
        requires
            0 <= r,
            0 <= cols,
    ;
}

/// Arrays with `a` and with `b` rows of `cols` elements have together as
/// many elements as one array with `a + b` rows.
pub proof fn lemma_rows_joined(a: int, b: int, cols: int)
    ensures
        (a + b) * cols == a * cols + b * cols,
{
    assert((a + b) * cols == a * cols + b * cols) by (nonlinear_arith);
}

/// Every element of an array lies within the array's elements.
pub proof fn lemma_at_all(rows: int, cols: int)
    ensures
        forall|r: int, c: int|
            0 <= r < rows && 0 <= c < cols ==> 0 <= #[trigger] at(cols, r, c) < rows * cols,
{
    assert forall|r: int, c: int| 0 <= r < rows && 0 <= c < cols implies 0 <= #[trigger] at(
        cols,
        r,
        c,
    ) < rows * cols by {
        lemma_at(rows, cols, r, c);
    }
}

/// Writes the rows of `lhs` followed by the rows of `rhs` to `dest`. All
/// three have the same number of columns, so that row after row the
/// elements of `dest` are those of `lhs` followed by those of `rhs`.
pub fn row_wise_stack<T: Copy>(dest: &mut Vec<T>, lhs: &[T], rhs: &[T])
    requires
        old(dest)@.len() == lhs@.len() + rhs@.len(),
    ensures
        final(dest)@ == lhs@ + rhs@,
{
    let n: usize = lhs.len();
    let mut i: usize = 0;
    while i < dest.len()
        invariant
            n == lhs@.len(),
            dest@.len() == lhs@.len() + rhs@.len(),
            i <= dest@.len(),
            forall|k: int| 0 <= k < i ==> dest@[k] == (lhs@ + rhs@)[k],
        decreases dest@.len() - i,
    {
        if i < n {
            dest[i] = lhs[i];
        } else {
            dest[i] = rhs[i - n];
        }
        i += 1;
    }
    proof {
        assert(dest@ =~= lhs@ + rhs@);
    }
}

/// In `rows` rows, `dest` holds the `lhs_cols` elements of the row of `lhs`
/// followed by the `rhs_cols` elements of the row of `rhs`.
pub open spec fn stacked_columns<T>(
    dest: Seq<T>,
    lhs: Seq<T>,
    rhs: Seq<T>,
    rows: int,
    lhs_cols: int,
    rhs_cols: int,
) -> bool {
    &&& dest.len() == rows * (lhs_cols + rhs_cols)
    &&& forall|r: int, c: int|
        0 <= r < rows && 0 <= c < lhs_cols ==> #[trigger] dest[at(lhs_cols + rhs_cols, r, c)]
            == lhs[at(lhs_cols, r, c)]
    &&& forall|r: int, c: int|
        0 <= r < rows && 0 <= c < rhs_cols ==> #[trigger] dest[at(
            lhs_cols + rhs_cols,
            r,
            lhs_cols + c,
        )] == rhs[at(rhs_cols, r, c)]
}

/// Writes each row of `lhs` followed by the same row of `rhs` to `dest`.
pub fn column_wise_stack<T: Copy>(
    dest: &mut Vec<T>,
    lhs: &[T],
    rhs: &[T],
    rows: usize,
    lhs_cols: usize,
    rhs_cols: usize,
)
    requires
        lhs@.len() == rows * lhs_cols,
        rhs@.len() == rows * rhs_cols,
        old(dest)@.len() == rows * (lhs_cols + rhs_cols),
    ensures
        stacked_columns(
            final(dest)@,
            lhs@,
            rhs@,
            rows as int,
            lhs_cols as int,
            rhs_cols as int,
        ),
{
    let ghost width = lhs_cols + rhs_cols;
    let total: usize = dest.len();
    proof {
        lemma_at_all(rows as int, width);
        lemma_at_all(rows as int, lhs_cols as int);
        lemma_at_all(rows as int, rhs_cols as int);
    }
    let mut r: usize = 0;
    let mut d: usize = 0;
    let mut l: usize = 0;
    let mut h: usize = 0;
    while r < rows
        invariant
            lhs@.len() == rows * lhs_cols,
            rhs@.len() == rows * rhs_cols,
            dest@.len() == rows * width,
            dest@.len() == total,
            width == lhs_cols + rhs_cols,
            forall|q: int, e: int|
                0 <= q < rows && 0 <= e < width ==> 0 <= #[trigger] at(width, q, e) < rows * width,
            r <= rows,
            d == r * width,
            l == r * lhs_cols,
            h == r * rhs_cols,
            forall|q: int, c: int|
                0 <= q < r && 0 <= c < lhs_cols ==> #[trigger] dest@[at(width, q, c)] == lhs@[at(
                    lhs_cols as int,
                    q,
                    c,
                )],
            forall|q: int, c: int|
                0 <= q < r && 0 <= c < rhs_cols ==> #[trigger] dest@[at(width, q, lhs_cols + c)]
                    == rhs@[at(rhs_cols as int, q, c)],
        decreases rows - r,
    {
        let ghost row_start = d;
        let mut c: usize = 0;
        while c < lhs_cols
            invariant
                lhs@.len() == rows * lhs_cols,
                dest@.len() == rows * width,
                dest@.len() == total,
                width == lhs_cols + rhs_cols,
                forall|q: int, e: int|
                    0 <= q < rows && 0 <= e < width ==> 0 <= #[trigger] at(width, q, e) < rows
                        * width,
                r < rows,
                c <= lhs_cols,
                row_start == r * width,
                d == row_start + c,
                l == r * lhs_cols + c,
                forall|q: int, e: int|
                    0 <= q < r && 0 <= e < lhs_cols ==> #[trigger] dest@[at(width, q, e)]
                        == lhs@[at(lhs_cols as int, q, e)],
                forall|q: int, e: int|
                    0 <= q < r && 0 <= e < rhs_cols ==> #[trigger] dest@[at(
                        width,
                        q,
                        lhs_cols + e,
                    )] == rhs@[at(rhs_cols as int, q, e)],
                forall|e: int| 0 <= e < c ==> #[trigger] dest@[at(width, r as int, e)] == lhs@[at(
                    lhs_cols as int,
                    r as int,
                    e,
                )],
            decreases lhs_cols - c,
        {
            proof {
                lemma_at(rows as int, width, r as int, c as int);
                lemma_at(rows as int, lhs_cols as int, r as int, c as int);
                lemma_rows_apart(width, r as int, c as int);
            }
            assert(d == at(width, r as int, c as int));
            dest[d] = lhs[l];
            d += 1;
            l += 1;
            c += 1;
        }
        let mut c: usize = 0;
        while c < rhs_cols
            invariant
                rhs@.len() == rows * rhs_cols,
                dest@.len() == rows * width,
                dest@.len() == total,
                width == lhs_cols + rhs_cols,
                forall|q: int, e: int|
                    0 <= q < rows && 0 <= e < width ==> 0 <= #[trigger] at(width, q, e) < rows
                        * width,
                r < rows,
                c <= rhs_cols,
                row_start == r * width,
                d == row_start + lhs_cols + c,
                h == r * rhs_cols + c,
                l == r * lhs_cols + lhs_cols,
                forall|q: int, e: int|
                    0 <= q < r && 0 <= e < lhs_cols ==> #[trigger] dest@[at(width, q, e)]
                        == lhs@[at(lhs_cols as int, q, e)],
                forall|q: int, e: int|
                    0 <= q < r && 0 <= e < rhs_cols ==> #[trigger] dest@[at(
                        width,
                        q,
                        lhs_cols + e,
                    )] == rhs@[at(rhs_cols as int, q, e)],
                forall|e: int|
                    0 <= e < lhs_cols ==> #[trigger] dest@[at(width, r as int, e)] == lhs@[at(
                        lhs_cols as int,
                        r as int,
                        e,
                    )],
                forall|e: int|
                    0 <= e < c ==> #[trigger] dest@[at(width, r as int, lhs_cols + e)] == rhs@[at(
                        rhs_cols as int,
                        r as int,
                        e,
                    )],
            decreases rhs_cols - c,
        {
            proof {
                lemma_at(rows as int, width, r as int, lhs_cols + c);
                lemma_at(rows as int, rhs_cols as int, r as int, c as int);
                lemma_rows_apart(width, r as int, lhs_cols + c);
            }
            assert(d == at(width, r as int, lhs_cols + c));
            dest[d] = rhs[h];
            d += 1;
            h += 1;
            c += 1;
        }
        proof {
            assert((r + 1) * width == r * width + width) by (nonlinear_arith);
            assert((r + 1) * lhs_cols == r * lhs_cols + lhs_cols) by (nonlinear_arith);
            assert((r + 1) * rhs_cols == r * rhs_cols + rhs_cols) by (nonlinear_arith);
        }
        r += 1;
    }
}

/// Elements of different rows, or of different columns of one row, lie at
/// different positions.
pub proof fn lemma_rows_apart(cols: int, r: int, c: int)
    requires
        0 <= r,
        0 <= c < cols,
    ensures
        forall|q: int, e: int|
            0 <= q && 0 <= e < cols && (q != r || e != c) ==> #[trigger] at(cols, q, e) != at(
                cols,
                r,
                c,
            ),
{
    assert forall|q: int, e: int| 0 <= q && 0 <= e < cols && (q != r || e != c) implies #[trigger] at(
        cols,
        q,
        e,
    ) != at(cols, r, c) by {
        if q < r {
            assert(q * cols + cols <= r * cols) by (nonlinear_arith)
                requires
                    q < r,
                    0 <= cols,
            ;
        } else if q > r {
            assert(r * cols + cols <= q * cols) by (nonlinear_arith)
                requires
                    r < q,
                    0 <= cols,
            ;
        }
    }
}

/// `after` is what a buffer element `before` becomes when the gradient
/// element reaches it: the gradient itself where the buffer is assigned, and
/// a sum of both, as `plus` forms it, where the buffer is incremented.
pub open spec fn merged<T, F: Fn(T, T) -> T>(
    before: T,
    gradient: T,
    after: T,
    op: BackwardAction,
    plus: F,
) -> bool {
    match op {
        BackwardAction::Assign => after == gradient,
        BackwardAction::Increment => plus.ensures((before, gradient), after),
    }
}

/// The buffer `after` is the buffer `before` with the gradient merged into
/// it, element by element.
pub open spec fn merged_all<T, F: Fn(T, T) -> T>(
    before: Seq<T>,
    gradient: Seq<T>,
    after: Seq<T>,
    op: BackwardAction,
    plus: F,
) -> bool {
    &&& after.len() == before.len()
    &&& gradient.len() == before.len()
    &&& forall|i: int|
        0 <= i < before.len() ==> merged(before[i], gradient[i], #[trigger] after[i], op, plus)
}

/// A buffer that is assigned a first gradient and incremented by a second
/// holds, element by element, a sum of the two as `plus` forms it: what
/// one assignment of such a sum leaves in it.
pub proof fn lemma_assign_then_increment<T, F: Fn(T, T) -> T>(
    before: Seq<T>,
    first: Seq<T>,
    second: Seq<T>,
    between: Seq<T>,
    after: Seq<T>,
    plus: F,
)
    requires
        merged_all(before, first, between, BackwardAction::Assign, plus),
        merged_all(between, second, after, BackwardAction::Increment, plus),
    ensures
        after.len() == first.len(),
        forall|i: int| 0 <= i < after.len() ==> plus.ensures((first[i], second[i]), #[trigger] after[i]),
        forall|sum: Seq<T>, once: Seq<T>|
            sum.len() == first.len() && (forall|i: int|
                0 <= i < sum.len() ==> plus.ensures((first[i], second[i]), #[trigger] sum[i]))
                && merged_all(before, sum, once, BackwardAction::Assign, plus) ==> (forall|i: int|
                0 <= i < once.len() ==> plus.ensures((first[i], second[i]), #[trigger] once[i])),
{
    assert forall|i: int| 0 <= i < after.len() implies plus.ensures(
        (first[i], second[i]),
        #[trigger] after[i],
    ) by {
        assert(merged(before[i], first[i], between[i], BackwardAction::Assign, plus));
        assert(merged(between[i], second[i], after[i], BackwardAction::Increment, plus));
    }
    assert forall|sum: Seq<T>, once: Seq<T>|
        sum.len() == first.len() && (forall|i: int|
            0 <= i < sum.len() ==> plus.ensures((first[i], second[i]), #[trigger] sum[i]))
            && merged_all(before, sum, once, BackwardAction::Assign, plus) implies (forall|i: int|
        0 <= i < once.len() ==> plus.ensures((first[i], second[i]), #[trigger] once[i])) by {
        assert forall|i: int| 0 <= i < once.len() implies plus.ensures(
            (first[i], second[i]),
            #[trigger] once[i],
        ) by {
            assert(merged(before[i], sum[i], once[i], BackwardAction::Assign, plus));
        }
    }
}

/// In `rows` rows, the buffers `lhs` and `rhs` have the left `lhs_cols` and
/// the right `rhs_cols` elements of the row of the gradient merged into
/// them.
pub open spec fn unstacked_columns<T, F: Fn(T, T) -> T>(
    gradient: Seq<T>,
    lhs_before: Seq<T>,
    rhs_before: Seq<T>,
    lhs: Seq<T>,
    rhs: Seq<T>,
    rows: int,
    lhs_cols: int,
    rhs_cols: int,
    op: BackwardAction,
    plus: F,
) -> bool {
    &&& lhs.len() == lhs_before.len()
    &&& rhs.len() == rhs_before.len()
    &&& forall|r: int, c: int|
        0 <= r < rows && 0 <= c < lhs_cols ==> merged(
            lhs_before[at(lhs_cols, r, c)],
            gradient[at(lhs_cols + rhs_cols, r, c)],
            #[trigger] lhs[at(lhs_cols, r, c)],
            op,
            plus,
        )
    &&& forall|r: int, c: int|
        0 <= r < rows && 0 <= c < rhs_cols ==> merged(
            rhs_before[at(rhs_cols, r, c)],
            gradient[at(lhs_cols + rhs_cols, r, lhs_cols + c)],
            #[trigger] rhs[at(rhs_cols, r, c)],
            op,
            plus,
        )
}

/// Merges one gradient element into one buffer element.
pub(crate) fn merge<T: Copy, F: Fn(T, T) -> T>(before: T, gradient: T, op: &BackwardAction, plus: &F) -> (after:
    T)
    requires
        *op is Increment ==> plus.requires((before, gradient)),
    ensures
        merged(before, gradient, after, *op, *plus),
{
    match op {
        BackwardAction::Assign => gradient,
        BackwardAction::Increment => plus(before, gradient),
    }
}

/// Takes the gradient of two arrays joined by rows apart: the first
/// elements of the gradient are merged into `lhs`, the others into `rhs`.
/// The buffers are assigned or incremented as `op` says.
pub fn row_wise_stack_gradient<T: Copy, F: Fn(T, T) -> T>(
    gradient: &[T],
    lhs: &mut Vec<T>,
    rhs: &mut Vec<T>,
    op: &BackwardAction,
    plus: F,
)
    requires
        gradient@.len() == old(lhs)@.len() + old(rhs)@.len(),
        *op is Increment ==> forall|a: T, b: T| plus.requires((a, b)),
    ensures
        merged_all(
            old(lhs)@,
            gradient@.subrange(0, old(lhs)@.len() as int),
            final(lhs)@,
            *op,
            plus,
        ),
        merged_all(
            old(rhs)@,
            gradient@.subrange(old(lhs)@.len() as int, gradient@.len() as int),
            final(rhs)@,
            *op,
            plus,
        ),
{
    let n: usize = lhs.len();
    let m: usize = rhs.len();
    let total: usize = gradient.len();
    let mut i: usize = 0;
    while i < n
        invariant
            n == lhs@.len(),
            lhs@.len() == old(lhs)@.len(),
            gradient@.len() == n + m,
            i <= n,
            *op is Increment ==> forall|a: T, b: T| plus.requires((a, b)),
            forall|k: int| i <= k < n ==> lhs@[k] == old(lhs)@[k],
            forall|k: int|
                0 <= k < i ==> merged(old(lhs)@[k], gradient@[k], #[trigger] lhs@[k], *op, plus),
        decreases n - i,
    {
        let value = merge(lhs[i], gradient[i], op, &plus);
        lhs[i] = value;
        i += 1;
    }
    let mut j: usize = 0;
    while j < m
        invariant
            m == rhs@.len(),
            rhs@.len() == old(rhs)@.len(),
            gradient@.len() == n + m,
            gradient@.len() == total,
            j <= m,
            *op is Increment ==> forall|a: T, b: T| plus.requires((a, b)),
            forall|k: int| j <= k < m ==> rhs@[k] == old(rhs)@[k],
            forall|k: int|
                0 <= k < j ==> merged(old(rhs)@[k], gradient@[n + k], #[trigger] rhs@[k], *op, plus),
        decreases m - j,
    {
        let value = merge(rhs[j], gradient[n + j], op, &plus);
        rhs[j] = value;
        j += 1;
    }
}

/// Takes the gradient of two arrays joined by columns apart: of each row
/// of the gradient the left elements are merged into the row of `lhs`, the
/// right ones into the row of `rhs`. The buffers are assigned or
/// incremented as `op` says.
pub fn column_wise_stack_gradient<T: Copy, F: Fn(T, T) -> T>(
    gradient: &[T],
    lhs: &mut Vec<T>,
    rhs: &mut Vec<T>,
    rows: usize,
    lhs_cols: usize,
    rhs_cols: usize,
    op: &BackwardAction,
    plus: F,
)
    requires
        old(lhs)@.len() == rows * lhs_cols,
        old(rhs)@.len() == rows * rhs_cols,
        gradient@.len() == rows * (lhs_cols + rhs_cols),
        *op is Increment ==> forall|a: T, b: T| plus.requires((a, b)),
    ensures
        unstacked_columns(
            gradient@,
            old(lhs)@,
            old(rhs)@,
            final(lhs)@,
            final(rhs)@,
            rows as int,
            lhs_cols as int,
            rhs_cols as int,
            *op,
            plus,
        ),
{
    let ghost width = lhs_cols + rhs_cols;
    let total: usize = gradient.len();
    let lhs_total: usize = lhs.len();
    let rhs_total: usize = rhs.len();
    let ghost lc = lhs_cols as int;
    let ghost rc = rhs_cols as int;
    proof {
        lemma_at_all(rows as int, width);
        lemma_at_all(rows as int, lc);
        lemma_at_all(rows as int, rc);
    }
    let mut r: usize = 0;
    let mut g: usize = 0;
    let mut l: usize = 0;
    let mut h: usize = 0;
    while r < rows
        invariant
            lhs@.len() == rows * lhs_cols,
            rhs@.len() == rows * rhs_cols,
            lhs@.len() == old(lhs)@.len(),
            rhs@.len() == old(rhs)@.len(),
            lhs@.len() == lhs_total,
            rhs@.len() == rhs_total,
            gradient@.len() == rows * width,
            gradient@.len() == total,
            width == lhs_cols + rhs_cols,
            lc == lhs_cols,
            rc == rhs_cols,
            *op is Increment ==> forall|a: T, b: T| plus.requires((a, b)),
            forall|q: int, e: int|
                0 <= q < rows && 0 <= e < width ==> 0 <= #[trigger] at(width, q, e) < rows * width,
            forall|q: int, e: int|
                0 <= q < rows && 0 <= e < lc ==> 0 <= #[trigger] at(lc, q, e) < rows * lc,
            forall|q: int, e: int|
                0 <= q < rows && 0 <= e < rc ==> 0 <= #[trigger] at(rc, q, e) < rows * rc,
            r <= rows,
            g == r * width,
            l == r * lhs_cols,
            h == r * rhs_cols,
            forall|k: int| l <= k < lhs@.len() ==> lhs@[k] == old(lhs)@[k],
            forall|k: int| h <= k < rhs@.len() ==> rhs@[k] == old(rhs)@[k],
            forall|q: int, e: int|
                0 <= q < r && 0 <= e < lc ==> merged(
                    old(lhs)@[at(lc, q, e)],
                    gradient@[at(width, q, e)],
                    #[trigger] lhs@[at(lc, q, e)],
                    *op,
                    plus,
                ),
            forall|q: int, e: int|
                0 <= q < r && 0 <= e < rc ==> merged(
                    old(rhs)@[at(rc, q, e)],
                    gradient@[at(width, q, lc + e)],
                    #[trigger] rhs@[at(rc, q, e)],
                    *op,
                    plus,
                ),
        decreases rows - r,
    {
        let mut c: usize = 0;
        while c < lhs_cols
            invariant
                lhs@.len() == rows * lhs_cols,
                lhs@.len() == old(lhs)@.len(),
                lhs@.len() == lhs_total,
                gradient@.len() == rows * width,
                gradient@.len() == total,
                width == lhs_cols + rhs_cols,
                lc == lhs_cols,
                *op is Increment ==> forall|a: T, b: T| plus.requires((a, b)),
                forall|q: int, e: int|
                    0 <= q < rows && 0 <= e < width ==> 0 <= #[trigger] at(width, q, e) < rows
                        * width,
                forall|q: int, e: int|
                    0 <= q < rows && 0 <= e < lc ==> 0 <= #[trigger] at(lc, q, e) < rows * lc,
                r < rows,
                c <= lhs_cols,
                g == r * width + c,
                l == r * lhs_cols + c,
                forall|k: int| l <= k < lhs@.len() ==> lhs@[k] == old(lhs)@[k],
                forall|q: int, e: int|
                    0 <= q < r && 0 <= e < lc ==> merged(
                        old(lhs)@[at(lc, q, e)],
                        gradient@[at(width, q, e)],
                        #[trigger] lhs@[at(lc, q, e)],
                        *op,
                        plus,
                    ),
                forall|e: int|
                    0 <= e < c ==> merged(
                        old(lhs)@[at(lc, r as int, e)],
                        gradient@[at(width, r as int, e)],
                        #[trigger] lhs@[at(lc, r as int, e)],
                        *op,
                        plus,
                    ),
            decreases lhs_cols - c,
        {
            proof {
                lemma_rows_apart(lc, r as int, c as int);
            }
            assert(g == at(width, r as int, c as int));
            assert(l == at(lc, r as int, c as int));
            let value = merge(lhs[l], gradient[g], op, &plus);
            lhs[l] = value;
            g += 1;
            l += 1;
            c += 1;
        }
        let mut c: usize = 0;
        while c < rhs_cols
            invariant
                rhs@.len() == rows * rhs_cols,
                rhs@.len() == old(rhs)@.len(),
                rhs@.len() == rhs_total,
                gradient@.len() == rows * width,
                gradient@.len() == total,
                width == lhs_cols + rhs_cols,
                lc == lhs_cols,
                rc == rhs_cols,
                *op is Increment ==> forall|a: T, b: T| plus.requires((a, b)),
                forall|q: int, e: int|
                    0 <= q < rows && 0 <= e < width ==> 0 <= #[trigger] at(width, q, e) < rows
                        * width,
                forall|q: int, e: int|
                    0 <= q < rows && 0 <= e < rc ==> 0 <= #[trigger] at(rc, q, e) < rows * rc,
                r < rows,
                c <= rhs_cols,
                g == r * width + lhs_cols + c,
                h == r * rhs_cols + c,
                l == r * lhs_cols + lhs_cols,
                forall|k: int| h <= k < rhs@.len() ==> rhs@[k] == old(rhs)@[k],
                forall|q: int, e: int|
                    0 <= q < r && 0 <= e < rc ==> merged(
                        old(rhs)@[at(rc, q, e)],
                        gradient@[at(width, q, lc + e)],
                        #[trigger] rhs@[at(rc, q, e)],
                        *op,
                        plus,
                    ),
                forall|e: int|
                    0 <= e < c ==> merged(
                        old(rhs)@[at(rc, r as int, e)],
                        gradient@[at(width, r as int, lc + e)],
                        #[trigger] rhs@[at(rc, r as int, e)],
                        *op,
                        plus,
                    ),
            decreases rhs_cols - c,
        {
            proof {
                lemma_rows_apart(rc, r as int, c as int);
            }
            assert(g == at(width, r as int, lc + c));
            assert(h == at(rc, r as int, c as int));
            let value = merge(rhs[h], gradient[g], op, &plus);
            rhs[h] = value;
            g += 1;
            h += 1;
            c += 1;
        }
        proof {
            assert((r + 1) * width == r * width + width) by (nonlinear_arith);
            assert((r + 1) * lhs_cols == r * lhs_cols + lhs_cols) by (nonlinear_arith);
            assert((r + 1) * rhs_cols == r * rhs_cols + rhs_cols) by (nonlinear_arith);
        }
        r += 1;
    }
}

} // verus!
