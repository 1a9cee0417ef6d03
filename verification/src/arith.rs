//! Facts about row-major index arithmetic used by the layer plans.
use vstd::prelude::*;

verus! {

/// A row-major index `a * n + b` with `a < m`, `b < n` lies in `0 .. m * n`.
pub proof fn lemma_row_major_in_range(a: int, m: int, b: int, n: int)
    requires
        0 <= a < m,
        0 <= b < n,
    ensures
        0 <= a * n,
        0 <= a * n + b < m * n,
        a * n + b < (a + 1) * n,
        (a + 1) * n <= m * n,
{
    assert(0 <= a * n) by (nonlinear_arith)
        requires
            0 <= a,
            0 <= n,
    ;
    assert((a + 1) * n == a * n + n) by (nonlinear_arith);
    assert((a + 1) * n <= m * n) by (nonlinear_arith)
        requires
            a + 1 <= m,
            0 <= n,
    ;
}

/// Row-major indices in `0 .. m * n` name distinct pairs.
pub proof fn lemma_row_major_injective(a1: int, b1: int, a2: int, b2: int, n: int)
    requires
        0 <= a1,
        0 <= a2,
        0 <= b1 < n,
        0 <= b2 < n,
        a1 * n + b1 == a2 * n + b2,
    ensures
        a1 == a2,
        b1 == b2,
{
    if a1 < a2 {
        lemma_row_major_in_range(a1, a2, b1, n);
        assert(a2 * n <= a2 * n + b2);
    } else if a2 < a1 {
        lemma_row_major_in_range(a2, a1, b2, n);
        assert(a1 * n <= a1 * n + b1);
    }
}

/// `a * m * n + b * n + c` with `a < l`, `b < m`, `c < n` lies in `0 .. l * m * n`.
pub proof fn lemma_row_major3_in_range(a: int, l: int, b: int, m: int, c: int, n: int)
    requires
        0 <= a < l,
        0 <= b < m,
        0 <= c < n,
    ensures
        0 <= a * m * n,
        0 <= b * n,
        0 <= a * m * n + b * n + c < l * m * n,
{
    lemma_row_major_in_range(a, l, b, m);
    lemma_row_major_in_range(a * m + b, l * m, c, n);
    assert((a * m + b) * n == a * m * n + b * n) by (nonlinear_arith);
    assert(0 <= b * n) by (nonlinear_arith)
        requires
            0 <= b,
            0 <= n,
    ;
    assert(0 <= a * m * n) by (nonlinear_arith)
        requires
            0 <= a * m,
            0 <= n,
    ;
}

/// Output position `o` of a strided window that starts at or before the last
/// full window reads positions below `span`.
pub proof fn lemma_window_position(o: int, stride: int, span: int, kernel: int, k: int)
    requires
        stride > 0,
        kernel <= span,
        0 <= k < kernel,
        0 <= o <= (span - kernel) / stride,
    ensures
        0 <= o * stride,
        o * stride + k < span,
{
    let d = span - kernel;
    let q = d / stride;
    assert(q * stride <= d) by (nonlinear_arith)
        requires
            stride > 0,
            d >= 0,
            q == d / stride,
    ;
    assert(0 <= o * stride <= q * stride) by (nonlinear_arith)
        requires
            0 <= o <= q,
            stride > 0,
    ;
}

} // verus!
