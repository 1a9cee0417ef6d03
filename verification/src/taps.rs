//! Tap plans: the signed input indices that one output accumulates.
//!
//! A ternary weight of `+1` adds its input, `-1` subtracts it, and every other
//! value is skipped. A plan lists, in accumulation order, the inputs that are
//! added or subtracted, so a caller can run the layer on any number type with
//! additions and subtractions only.
use vstd::prelude::*;

verus! {

/// One step of an accumulation: add (or, when `negate`, subtract) `input[index]`.
#[derive(Clone, Copy, Debug, PartialEq, Eq)]
pub struct Tap {
    pub index: usize,
    pub negate: bool,
}

/// The multiplier a stored weight stands for: `+1` and `-1` are themselves,
/// every other value contributes nothing.
pub open spec fn trit_value(w: i8) -> int {
    if w == 1 {
        1
    } else if w == -1 {
        -1
    } else {
        0
    }
}

/// A weight that is a trit in the strict sense.
pub open spec fn is_trit(w: i8) -> bool {
    -1 <= w <= 1
}

/// The taps that weight `w` applied to `input[index]` contributes: one tap for
/// `+1` or `-1`, none otherwise.
pub open spec fn trit_tap(w: i8, index: int) -> Seq<Tap> {
    if w == 1 {
        seq![Tap { index: index as usize, negate: false }]
    } else if w == -1 {
        seq![Tap { index: index as usize, negate: true }]
    } else {
        Seq::empty()
    }
}

/// `f(0) + f(1) + ... + f(n - 1)`, concatenated in that order.
pub open spec fn concat_range(n: int, f: spec_fn(int) -> Seq<Tap>) -> Seq<Tap>
    decreases n,
{
    if n <= 0 {
        Seq::empty()
    } else {
        concat_range(n - 1, f) + f(n - 1)
    }
}

/// `g(0) + g(1) + ... + g(n - 1)` over the integers.
pub open spec fn sum_range(n: int, g: spec_fn(int) -> int) -> int
    decreases n,
{
    if n <= 0 {
        0
    } else {
        sum_range(n - 1, g) + g(n - 1)
    }
}

/// The signed value one tap contributes when accumulating over `x`.
pub open spec fn tap_value(t: Tap, x: Seq<int>) -> int {
    if t.negate {
        -x[t.index as int]
    } else {
        x[t.index as int]
    }
}

/// The result of accumulating `x` along `taps`, starting from zero.
pub open spec fn apply_taps(taps: Seq<Tap>, x: Seq<int>) -> int
    decreases taps.len(),
{
    if taps.len() == 0 {
        0
    } else {
        apply_taps(taps.drop_last(), x) + tap_value(taps.last(), x)
    }
}

/// Every tap of `taps` reads an input below `bound`.
pub open spec fn taps_below(taps: Seq<Tap>, bound: int) -> bool {
    forall|j: int| 0 <= j < taps.len() ==> (#[trigger] taps[j]).index < bound
}

/// Law: a stored weight in `-1 ..= 1` multiplies by itself; every other
/// stored value multiplies by zero.
pub proof fn lemma_trit_value_is_weight(w: i8)
    ensures
        -1 <= w <= 1 ==> trit_value(w) == w as int,
        !(-1 <= w <= 1) ==> trit_value(w) == 0,
{
}

/// Accumulating a concatenation is accumulating each part and adding.
pub proof fn lemma_apply_append(a: Seq<Tap>, b: Seq<Tap>, x: Seq<int>)
    ensures
        apply_taps(a + b, x) == apply_taps(a, x) + apply_taps(b, x),
    decreases b.len(),
{
    if b.len() == 0 {
        assert(a + b =~= a);
    } else {
        lemma_apply_append(a, b.drop_last(), x);
        assert((a + b).drop_last() =~= a + b.drop_last());
        assert((a + b).last() == b.last());
    }
}

/// The taps of one weight add `trit_value(w)` times the input it reads.
pub proof fn lemma_apply_trit_tap(w: i8, index: int, x: Seq<int>)
    requires
        0 <= index <= usize::MAX,
    ensures
        apply_taps(trit_tap(w, index), x) == trit_value(w) * x[index],
{
    let t = trit_tap(w, index);
    if w == 1 || w == -1 {
        assert(t.drop_last() =~= Seq::<Tap>::empty());
        assert(apply_taps(t.drop_last(), x) == 0);
    }
}

/// Accumulating `concat_range(n, f)` gives `sum_range(n, g)` when each part
/// `f(i)` accumulates to `g(i)`.
pub proof fn lemma_apply_concat_range(
    n: int,
    f: spec_fn(int) -> Seq<Tap>,
    g: spec_fn(int) -> int,
    x: Seq<int>,
)
    requires
        forall|i: int| 0 <= i < n ==> apply_taps(#[trigger] f(i), x) == g(i),
    ensures
        apply_taps(concat_range(n, f), x) == sum_range(n, g),
    decreases n,
{
    if n > 0 {
        lemma_apply_concat_range(n - 1, f, g, x);
        lemma_apply_append(concat_range(n - 1, f), f(n - 1), x);
    }
}

/// Sums of pointwise equal terms are equal.
pub proof fn lemma_sum_range_congruent(n: int, g: spec_fn(int) -> int, h: spec_fn(int) -> int)
    requires
        forall|i: int| 0 <= i < n ==> #[trigger] g(i) == h(i),
    ensures
        sum_range(n, g) == sum_range(n, h),
    decreases n,
{
    if n > 0 {
        lemma_sum_range_congruent(n - 1, g, h);
    }
}

/// Concatenations of pointwise equal parts are equal.
pub proof fn lemma_concat_range_congruent(
    n: int,
    f: spec_fn(int) -> Seq<Tap>,
    g: spec_fn(int) -> Seq<Tap>,
)
    requires
        forall|i: int| 0 <= i < n ==> #[trigger] f(i) == g(i),
    ensures
        concat_range(n, f) == concat_range(n, g),
    decreases n,
{
    if n > 0 {
        lemma_concat_range_congruent(n - 1, f, g);
    }
}

/// A concatenation of parts of at most `b` taps each has at most `n * b` taps.
pub proof fn lemma_concat_range_len(n: int, f: spec_fn(int) -> Seq<Tap>, b: int)
    requires
        0 <= n,
        0 <= b,
        forall|i: int| 0 <= i < n ==> (#[trigger] f(i)).len() <= b,
    ensures
        concat_range(n, f).len() <= n * b,
    decreases n,
{
    if n > 0 {
        lemma_concat_range_len(n - 1, f, b);
        assert((n - 1) * b + b == n * b) by (nonlinear_arith);
    }
}

/// A concatenation of empty parts is empty.
pub proof fn lemma_concat_range_empty(n: int, f: spec_fn(int) -> Seq<Tap>)
    requires
        forall|i: int| 0 <= i < n ==> (#[trigger] f(i)).len() == 0,
    ensures
        concat_range(n, f).len() == 0,
    decreases n,
{
    if n > 0 {
        lemma_concat_range_empty(n - 1, f);
    }
}

/// A concatenation of parts that read below `bound` reads below `bound`.
pub proof fn lemma_concat_range_below(n: int, f: spec_fn(int) -> Seq<Tap>, bound: int)
    requires
        forall|i: int| 0 <= i < n ==> taps_below(#[trigger] f(i), bound),
    ensures
        taps_below(concat_range(n, f), bound),
    decreases n,
{
    if n > 0 {
        lemma_concat_range_below(n - 1, f, bound);
        let a = concat_range(n - 1, f);
        let b = f(n - 1);
        assert(taps_below(b, bound));
        assert forall|j: int| 0 <= j < (a + b).len() implies (#[trigger] (a + b)[j]).index
            < bound by {
            if j < a.len() {
                assert((a + b)[j] == a[j]);
            } else {
                assert((a + b)[j] == b[j - a.len()]);
            }
        }
    }
}

/// The taps of one weight read `index` only.
pub proof fn lemma_trit_tap_shape(w: i8, index: int, bound: int)
    requires
        0 <= index < bound,
        index <= usize::MAX,
    ensures
        trit_tap(w, index).len() <= 1,
        taps_below(trit_tap(w, index), bound),
        w == 0 ==> trit_tap(w, index).len() == 0,
{
}

} // verus!
