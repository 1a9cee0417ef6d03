//! Operation counts for an M×N×K matrix product.
use vstd::prelude::*;

verus! {

/// Additions and subtractions in an M×N×K ternary product: one per weight.
pub open spec fn spec_ops_ternary(m: nat, n: nat, k: nat) -> nat {
    m * n * k
}

/// Arithmetic operations in an M×N×K float product: a multiply and an add per weight.
pub open spec fn spec_ops_float(m: nat, n: nat, k: nat) -> nat {
    2 * (m * n * k)
}

/// Arithmetic operations for an M×N×K ternary matmul (additions only, no muls).
pub fn count_ops_ternary(m: usize, n: usize, k: usize) -> (r: u64)
    requires
        m * n <= usize::MAX,
        m * n * k <= usize::MAX,
    ensures
        r == spec_ops_ternary(m as nat, n as nat, k as nat),
        r == m * n * k,
{
    let mn: usize = m * n;
    let mnk: usize = mn * k;
    mnk as u64
}

/// Arithmetic operations for an M×N×K float32 matmul (1 FMA = 1 mul + 1 add).
pub fn count_ops_float(m: usize, n: usize, k: usize) -> (r: u64)
    requires
        m * n <= usize::MAX,
        m * n * k <= usize::MAX,
        2 * (m * n * k) <= u64::MAX,
    ensures
        r == spec_ops_float(m as nat, n as nat, k as nat),
        r == 2 * m * n * k,
{
    let mn: usize = m * n;
    let mnk: usize = mn * k;
    assert(2 * (m * n * k) == 2 * m * n * k) by (nonlinear_arith);
    2 * (mnk as u64)
}

/// Law: a ternary M×N×K product costs one operation per weight, `m·n·k`, so
/// one more slice of depth `k` adds `m·n` operations; the float product costs
/// `2·m·n·k`.
pub proof fn lemma_ops_per_weight(m: nat, n: nat, k: nat)
    ensures
        spec_ops_ternary(m, n, k) == m * n * k,
        spec_ops_float(m, n, k) == 2 * m * n * k,
        spec_ops_ternary(m, n, 0) == 0,
        spec_ops_ternary(m, n, k + 1) == spec_ops_ternary(m, n, k) + m * n,
{
    assert(m * n * (k + 1) == m * n * k + m * n) by (nonlinear_arith);
    assert(2 * (m * n * k) == 2 * m * n * k) by (nonlinear_arith);
}

/// A float product costs exactly twice the operations of the ternary one, and
/// strictly more whenever the product is not empty.
pub proof fn lemma_float_ops_twice_ternary(m: nat, n: nat, k: nat)
    ensures
        spec_ops_float(m, n, k) == 2 * spec_ops_ternary(m, n, k),
        m * n * k > 0 ==> spec_ops_ternary(m, n, k) < spec_ops_float(m, n, k),
{
}

} // verus!
