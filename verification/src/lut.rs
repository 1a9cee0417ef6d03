//! Ternary matrix–vector products by lookup: `+1` adds, `-1` subtracts, `0` skips.
use vstd::prelude::*;
use crate::taps::{
    Tap, apply_taps, concat_range, is_trit, lemma_apply_concat_range, lemma_apply_trit_tap,
    lemma_concat_range_below, lemma_concat_range_congruent, lemma_concat_range_empty, lemma_concat_range_len,
    lemma_sum_range_congruent, lemma_trit_tap_shape, sum_range, taps_below, trit_tap, trit_value,
};

verus! {

/// The part of row `r` that column `j` contributes: the tap of
/// `weights[r * cols + j]` on `input[j]`.
pub open spec fn lut_entry(weights: Seq<i8>, cols: int, r: int) -> spec_fn(int) -> Seq<Tap> {
    |j: int| trit_tap(weights[r * cols + j], j)
}

/// The taps of output row `r` of a row-major `rows × cols` ternary matrix,
/// column by column.
pub open spec fn lut_row_taps(weights: Seq<i8>, cols: int, r: int) -> Seq<Tap> {
    concat_range(cols, lut_entry(weights, cols, r))
}

/// Row `r` of the product with the stored weights taken as multipliers
/// (`trit_value`), on integer inputs.
pub open spec fn lut_row_sum(weights: Seq<i8>, cols: int, r: int, x: Seq<int>) -> int {
    sum_range(cols, |j: int| trit_value(weights[r * cols + j]) * x[j])
}

/// Row `r` of the ordinary multiply-accumulate product on integer inputs.
pub open spec fn naive_row_sum(weights: Seq<i8>, cols: int, r: int, x: Seq<int>) -> int {
    sum_range(cols, |j: int| (weights[r * cols + j] as int) * x[j])
}

proof fn lemma_row_bounds(r: int, cols: int, j: int, len: int)
    requires
        0 <= r,
        0 <= j < cols,
        (r + 1) * cols <= len,
    ensures
        0 <= r * cols + j < len,
{
    assert((r + 1) * cols == r * cols + cols) by (nonlinear_arith);
    assert(0 <= r * cols) by (nonlinear_arith)
        requires
            0 <= r,
            0 <= cols,
    ;
}

/// The taps of one output row.
fn lut_row(weights: &[i8], cols: usize, r: usize) -> (res: Vec<Tap>)
    requires
        (r + 1) * cols <= weights@.len(),
    ensures
        res@ == lut_row_taps(weights@, cols as int, r as int),
{
    let len: usize = weights.len();
    proof {
        assert(r * cols <= (r + 1) * cols) by (nonlinear_arith);
    }
    let base: usize = r * cols;
    let mut res: Vec<Tap> = Vec::new();
    for j in 0..cols
        invariant
            base == r * cols,
            len == weights@.len(),
            (r + 1) * cols <= weights@.len(),
            res@ == concat_range(j as int, lut_entry(weights@, cols as int, r as int)),
    {
        proof {
            lemma_row_bounds(r as int, cols as int, j as int, weights@.len() as int);
        }
        let w = weights[base + j];
        let ghost before = res@;
        if w == 1 {
            res.push(Tap { index: j, negate: false });
        } else if w == -1 {
            res.push(Tap { index: j, negate: true });
        }
        assert(res@ =~= before + lut_entry(weights@, cols as int, r as int)(j as int));
    }
    res
}

/// The tap plan of the first `rows` rows of a row-major ternary matrix with
/// `cols` columns, as a linear layer reads it: entry `r` lists the inputs that
/// output `r` adds or subtracts, in column order. Weights stored beyond the
/// `rows × cols` matrix are not read.
pub fn matvec_plan(weights: &[i8], rows: usize, cols: usize) -> (plan: Vec<Vec<Tap>>)
    requires
        rows * cols <= weights@.len(),
    ensures
        plan@.len() == rows,
        forall|r: int| 0 <= r < rows ==> (#[trigger] plan@[r])@ == lut_row_taps(weights@, cols as int, r),
{
    let mut plan: Vec<Vec<Tap>> = Vec::new();
    for r in 0..rows
        invariant
            rows * cols <= weights@.len(),
            plan@.len() == r,
            forall|q: int| 0 <= q < r ==> (#[trigger] plan@[q])@ == lut_row_taps(weights@, cols as int, q),
    {
        proof {
            assert((r + 1) * cols <= rows * cols) by (nonlinear_arith)
                requires
                    r < rows,
            ;
        }
        let row = lut_row(weights, cols, r);
        plan.push(row);
    }
    plan
}

/// The tap plan of a row-major `rows × cols` ternary matrix that holds
/// exactly `rows × cols` weights: entry `r` lists the inputs that output `r`
/// adds or subtracts, in column order.
///
/// Running the plan on `input` gives `Σ_j w[r][j] · input[j]` with no
/// multiplication; weights other than `+1` and `-1` are skipped.
pub fn lut_matmul_plan(weights: &[i8], rows: usize, cols: usize) -> (plan: Vec<Vec<Tap>>)
    requires
        weights@.len() == rows * cols,
    ensures
        plan@.len() == rows,
        forall|r: int| 0 <= r < rows ==> (#[trigger] plan@[r])@ == lut_row_taps(weights@, cols as int, r),
{
    matvec_plan(weights, rows, cols)
}

/// Law: stacking two weight matrices stacks their products. Each row of the
/// stacked matrix `w1 ++ w2` has the taps of its own row in `w1` or `w2`.
pub proof fn lemma_lut_row_blocks(w1: Seq<i8>, w2: Seq<i8>, r1: int, r2: int, cols: int, r: int)
    requires
        0 <= r1,
        0 <= r2,
        0 <= cols,
        w1.len() == r1 * cols,
        w2.len() == r2 * cols,
        0 <= r < r1 + r2,
    ensures
        r < r1 ==> lut_row_taps(w1 + w2, cols, r) == lut_row_taps(w1, cols, r),
        r1 <= r ==> lut_row_taps(w1 + w2, cols, r) == lut_row_taps(w2, cols, r - r1),
{
    let f = lut_entry(w1 + w2, cols, r);
    if r < r1 {
        let g = lut_entry(w1, cols, r);
        assert forall|j: int| 0 <= j < cols implies #[trigger] f(j) == g(j) by {
            assert((r + 1) * cols <= r1 * cols) by (nonlinear_arith)
                requires
                    r + 1 <= r1,
                    0 <= cols,
            ;
            lemma_row_bounds(r, cols, j, w1.len() as int);
            assert((w1 + w2)[r * cols + j] == w1[r * cols + j]);
        }
        lemma_concat_range_congruent(cols, f, g);
    } else {
        let g = lut_entry(w2, cols, r - r1);
        assert forall|j: int| 0 <= j < cols implies #[trigger] f(j) == g(j) by {
            assert((r - r1 + 1) * cols <= r2 * cols) by (nonlinear_arith)
                requires
                    r - r1 + 1 <= r2,
                    0 <= cols,
            ;
            lemma_row_bounds(r - r1, cols, j, w2.len() as int);
            assert(r * cols + j == r1 * cols + ((r - r1) * cols + j)) by (nonlinear_arith);
            assert((w1 + w2)[r * cols + j] == w2[(r - r1) * cols + j]);
        }
        lemma_concat_range_congruent(cols, f, g);
    }
}

/// Law: running the taps of row `r` on integer inputs gives the row of the
/// product with each weight standing for `trit_value`; when every weight of
/// the row is a trit this is the ordinary multiply-accumulate row.
pub proof fn lemma_lut_row_matches_naive(weights: Seq<i8>, cols: int, r: int, x: Seq<int>)
    requires
        0 <= r,
        0 <= cols <= usize::MAX,
        (r + 1) * cols <= weights.len(),
    ensures
        apply_taps(lut_row_taps(weights, cols, r), x) == lut_row_sum(weights, cols, r, x),
        apply_taps(lut_row_taps(weights, cols, r), x) == sum_range(
            cols,
            |j: int| trit_value(weights[r * cols + j]) * x[j],
        ),
        (forall|j: int| 0 <= j < cols ==> is_trit(#[trigger] weights[r * cols + j]))
            ==> apply_taps(lut_row_taps(weights, cols, r), x) == naive_row_sum(weights, cols, r, x),
        (forall|j: int| 0 <= j < cols ==> -1 <= #[trigger] weights[r * cols + j] <= 1)
            ==> apply_taps(lut_row_taps(weights, cols, r), x) == sum_range(
            cols,
            |j: int| (weights[r * cols + j] as int) * x[j],
        ),
{
    let f = lut_entry(weights, cols, r);
    let g = |j: int| trit_value(weights[r * cols + j]) * x[j];
    let h = |j: int| (weights[r * cols + j] as int) * x[j];
    assert forall|j: int| 0 <= j < cols implies apply_taps(#[trigger] f(j), x) == g(j) by {
        lemma_apply_trit_tap(weights[r * cols + j], j, x);
    }
    lemma_apply_concat_range(cols, f, g, x);
    if forall|j: int| 0 <= j < cols ==> is_trit(#[trigger] weights[r * cols + j]) {
        assert forall|j: int| 0 <= j < cols implies #[trigger] g(j) == h(j) by {
            assert(is_trit(weights[r * cols + j]));
        }
        lemma_sum_range_congruent(cols, g, h);
    }
}

/// Law: row `r` has at most one tap per column, every tap reads an input
/// below `cols`, and an all-zero row has no taps (its output is zero).
pub proof fn lemma_lut_row_shape(weights: Seq<i8>, cols: int, r: int)
    requires
        0 <= r,
        0 <= cols <= usize::MAX,
        (r + 1) * cols <= weights.len(),
    ensures
        lut_row_taps(weights, cols, r).len() <= cols,
        taps_below(lut_row_taps(weights, cols, r), cols),
        (forall|j: int| 0 <= j < cols ==> #[trigger] weights[r * cols + j] == 0) ==> lut_row_taps(
            weights,
            cols,
            r,
        ).len() == 0,
{
    let f = lut_entry(weights, cols, r);
    assert forall|j: int| 0 <= j < cols implies (#[trigger] f(j)).len() <= 1 && taps_below(
        f(j),
        cols,
    ) by {
        lemma_trit_tap_shape(weights[r * cols + j], j, cols);
    }
    lemma_concat_range_len(cols, f, 1);
    lemma_concat_range_below(cols, f, cols);
    if forall|j: int| 0 <= j < cols ==> #[trigger] weights[r * cols + j] == 0 {
        assert forall|j: int| 0 <= j < cols implies (#[trigger] f(j)).len() == 0 by {
            assert(weights[r * cols + j] == 0);
        }
        lemma_concat_range_empty(cols, f);
    }
}

} // verus!
