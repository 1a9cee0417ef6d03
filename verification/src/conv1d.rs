//! 1-D convolution with ternary kernel weights.
use vstd::prelude::*;
use vstd::arithmetic::div_mod::{lemma_div_is_ordered, lemma_div_plus_one, lemma_div_pos_is_pos};
use crate::arith::{lemma_row_major3_in_range, lemma_row_major_in_range, lemma_row_major_injective, lemma_window_position};
use crate::taps::{
    Tap, apply_taps, concat_range, lemma_apply_concat_range, lemma_apply_trit_tap,
    lemma_concat_range_below, lemma_concat_range_empty, lemma_concat_range_len,
    lemma_trit_tap_shape, sum_range, taps_below, trit_tap, trit_value,
};

verus! {

/// 1-D convolution with ternary kernel weights.
pub struct TernaryConv1d {
    pub in_channels: usize,
    pub out_channels: usize,
    pub kernel_size: usize,
    pub stride: usize,
    pub padding: usize,
    /// `weights[oc * in_channels * kernel_size + ic * kernel_size + k]`
    pub weights: Vec<i8>,
}

/// `floor((len + 2·padding − kernel) / stride) + 1` windows fit in the padded
/// input; none fits when the kernel is longer than the padded input.
pub open spec fn spec_output_length(len: int, kernel: int, stride: int, padding: int) -> int {
    let span = len + 2 * padding;
    if span >= kernel {
        (span - kernel) / stride + 1
    } else {
        0
    }
}

/// The arguments of `spec_output_length` give a length without overflow.
pub open spec fn output_length_fits(len: int, kernel: int, stride: int, padding: int) -> bool {
    &&& stride > 0
    &&& len + 2 * padding <= usize::MAX
    &&& spec_output_length(len, kernel, stride, padding) <= usize::MAX
}

impl TernaryConv1d {
    /// Number of kernel weights the layer reads.
    pub open spec fn weight_count(self) -> int {
        self.out_channels * self.in_channels * self.kernel_size
    }

    /// Output length for an input of `input_len` steps.
    pub open spec fn out_len(self, input_len: int) -> int {
        spec_output_length(input_len, self.kernel_size as int, self.stride as int, self.padding as int)
    }

    /// The layer can be planned for an input of `[in_channels × input_len]`:
    /// the output length, the output buffer and the input buffer fit in
    /// `usize`, and every kernel weight is stored.
    pub open spec fn plan_fits(self, input_len: int) -> bool {
        &&& output_length_fits(
            input_len,
            self.kernel_size as int,
            self.stride as int,
            self.padding as int,
        )
        &&& self.out_channels * self.out_len(input_len) <= usize::MAX
        &&& self.in_channels * input_len <= usize::MAX
        &&& self.weight_count() <= self.weights@.len()
    }

    /// The weight from input channel `ic`, kernel offset `k`, to output channel `oc`.
    pub open spec fn weight(self, oc: int, ic: int, k: int) -> i8 {
        self.weights@[oc * self.in_channels * self.kernel_size + ic * self.kernel_size + k]
    }

    /// The position in channel `ic` that output `o` reads at kernel offset `k`,
    /// counted in the unpadded input (it may fall outside it).
    pub open spec fn source(self, o: int, k: int) -> int {
        o * self.stride + k - self.padding
    }

    /// The tap (if any) of kernel offset `k` of input channel `ic` for output
    /// `(oc, o)`: none when the position falls in the zero padding.
    pub open spec fn tap_at(self, input_len: int, oc: int, o: int, ic: int, k: int) -> Seq<Tap> {
        let pos = self.source(o, k);
        if 0 <= pos < input_len {
            trit_tap(self.weight(oc, ic, k), ic * input_len + pos)
        } else {
            Seq::empty()
        }
    }

    /// The taps of input channel `ic`, offset by offset.
    pub open spec fn kernel_taps(self, input_len: int, oc: int, o: int, ic: int) -> spec_fn(
        int,
    ) -> Seq<Tap> {
        |k: int| self.tap_at(input_len, oc, o, ic, k)
    }

    /// The taps of each input channel.
    pub open spec fn channel_taps(self, input_len: int, oc: int, o: int) -> spec_fn(int) -> Seq<Tap> {
        |ic: int| concat_range(self.kernel_size as int, self.kernel_taps(input_len, oc, o, ic))
    }

    /// The taps of output `o` of channel `oc`: channel by channel, offset by
    /// offset, the order in which the convolution accumulates.
    pub open spec fn output_taps(self, input_len: int, oc: int, o: int) -> Seq<Tap> {
        concat_range(self.in_channels as int, self.channel_taps(input_len, oc, o))
    }

    /// `x[ic][pos]` of an `[in_channels × input_len]` input, zero in the padding.
    pub open spec fn padded_input(self, x: Seq<int>, input_len: int, ic: int, pos: int) -> int {
        if 0 <= pos < input_len {
            x[ic * input_len + pos]
        } else {
            0
        }
    }

    /// The kernel row of channel `ic` multiplied into the padded input.
    pub open spec fn dense_kernel(self, x: Seq<int>, input_len: int, oc: int, o: int, ic: int) -> spec_fn(
        int,
    ) -> int {
        |k: int|
            trit_value(self.weight(oc, ic, k)) * self.padded_input(x, input_len, ic, self.source(o, k))
    }

    /// Output `(oc, o)` of the convolution computed with multiplications over
    /// the zero-padded integer input `x`.
    pub open spec fn dense_output(self, x: Seq<int>, input_len: int, oc: int, o: int) -> int {
        sum_range(
            self.in_channels as int,
            |ic: int| sum_range(self.kernel_size as int, self.dense_kernel(x, input_len, oc, o, ic)),
        )
    }

    /// A layer with all-zero weights.
    pub fn new(
        in_channels: usize,
        out_channels: usize,
        kernel_size: usize,
        stride: usize,
        padding: usize,
    ) -> (layer: Self)
        requires
            out_channels * in_channels <= usize::MAX,
            out_channels * in_channels * kernel_size <= usize::MAX,
        ensures
            layer.in_channels == in_channels,
            layer.out_channels == out_channels,
            layer.kernel_size == kernel_size,
            layer.stride == stride,
            layer.padding == padding,
            layer.weights@.len() == layer.weight_count(),
            forall|i: int| 0 <= i < layer.weights@.len() ==> layer.weights@[i] == 0,
    {
        let oi: usize = out_channels * in_channels;
        let n: usize = oi * kernel_size;
        let weights: Vec<i8> = vec![0i8; n];
        TernaryConv1d { in_channels, out_channels, kernel_size, stride, padding, weights }
    }

    /// Output length for a given input length (floor division).
    pub fn output_length(&self, input_len: usize) -> (len: usize)
        requires
            output_length_fits(
                input_len as int,
                self.kernel_size as int,
                self.stride as int,
                self.padding as int,
            ),
        ensures
            len == self.out_len(input_len as int),
    {
        let span: usize = input_len + 2 * self.padding;
        match span.checked_sub(self.kernel_size) {
            Some(room) => room / self.stride + 1,
            None => 0,
        }
    }

    /// The taps of kernel row `ic` for output `(oc, o)`.
    fn kernel_row(&self, input_len: usize, out_len: usize, oc: usize, o: usize, ic: usize) -> (res: Vec<Tap>)
        requires
            self.plan_fits(input_len as int),
            out_len == self.out_len(input_len as int),
            oc < self.out_channels,
            o < out_len,
            ic < self.in_channels,
        ensures
            res@ == self.channel_taps(input_len as int, oc as int, o as int)(ic as int),
    {
        let ghost span = input_len + 2 * self.padding;
        let wlen: usize = self.weights.len();
        let mut res: Vec<Tap> = Vec::new();
        for k in 0..self.kernel_size
            invariant
                self.plan_fits(input_len as int),
                out_len == self.out_len(input_len as int),
                oc < self.out_channels,
                o < out_len,
                ic < self.in_channels,
                span == input_len + 2 * self.padding,
                wlen == self.weights@.len(),
                res@ == concat_range(k as int, self.kernel_taps(input_len as int, oc as int, o as int, ic as int)),
        {
            proof {
                lemma_window_position(o as int, self.stride as int, span, self.kernel_size as int, k as int);
            }
            let src_pos: usize = o * self.stride + k;
            let ghost before = res@;
            if src_pos >= self.padding {
                let p: usize = src_pos - self.padding;
                if p < input_len {
                    proof {
                        lemma_row_major3_in_range(
                            oc as int,
                            self.out_channels as int,
                            ic as int,
                            self.in_channels as int,
                            k as int,
                            self.kernel_size as int,
                        );
                        lemma_row_major_in_range(ic as int, self.in_channels as int, p as int, input_len as int);
                        assert(oc * self.in_channels <= oc * self.in_channels * self.kernel_size) by (nonlinear_arith)
                            requires
                                self.kernel_size >= 1,
                        ;
                    }
                    let w_idx: usize = oc * self.in_channels * self.kernel_size + ic * self.kernel_size + k;
                    let w = self.weights[w_idx];
                    let index: usize = ic * input_len + p;
                    if w == 1 {
                        res.push(Tap { index, negate: false });
                    } else if w == -1 {
                        res.push(Tap { index, negate: true });
                    }
                }
            }
            assert(res@ =~= before + self.kernel_taps(input_len as int, oc as int, o as int, ic as int)(k as int));
        }
        res
    }

    /// The taps of output `o` of channel `oc`.
    fn output_row(&self, input_len: usize, out_len: usize, oc: usize, o: usize) -> (res: Vec<Tap>)
        requires
            self.plan_fits(input_len as int),
            out_len == self.out_len(input_len as int),
            oc < self.out_channels,
            o < out_len,
        ensures
            res@ == self.output_taps(input_len as int, oc as int, o as int),
    {
        let mut res: Vec<Tap> = Vec::new();
        for ic in 0..self.in_channels
            invariant
                self.plan_fits(input_len as int),
                out_len == self.out_len(input_len as int),
                oc < self.out_channels,
                o < out_len,
                res@ == concat_range(ic as int, self.channel_taps(input_len as int, oc as int, o as int)),
        {
            let mut part = self.kernel_row(input_len, out_len, oc, o, ic);
            res.append(&mut part);
        }
        res
    }

    /// The tap plan of the layer for an input of `[in_channels × input_len]`
    /// (row-major): entry `oc * out_len + o` lists the inputs that output `o`
    /// of channel `oc` adds or subtracts, in accumulation order. Positions in
    /// the padding contribute nothing.
    pub fn forward_plan(&self, input_len: usize) -> (plan: Vec<Vec<Tap>>)
        requires
            self.plan_fits(input_len as int),
        ensures
            plan@.len() == self.out_channels * self.out_len(input_len as int),
            forall|oc: int, o: int|
                0 <= oc < self.out_channels && 0 <= o < self.out_len(input_len as int) ==> (
                #[trigger] self.output_taps(input_len as int, oc, o)) == plan@[oc
                    * self.out_len(input_len as int) + o]@,
    {
        let out_len = self.output_length(input_len);
        let ghost l = out_len as int;
        let mut plan: Vec<Vec<Tap>> = Vec::new();
        assert(0 * l == 0);
        for oc in 0..self.out_channels
            invariant
                self.plan_fits(input_len as int),
                out_len == self.out_len(input_len as int),
                l == out_len,
                plan@.len() == oc * l,
                forall|oc2: int, o2: int|
                    0 <= oc2 && 0 <= o2 < l && oc2 * l + o2 < plan@.len() ==> (
                    #[trigger] self.output_taps(input_len as int, oc2, o2)) == plan@[oc2 * l + o2]@,
        {
            for o in 0..out_len
                invariant
                    self.plan_fits(input_len as int),
                    out_len == self.out_len(input_len as int),
                    l == out_len,
                    oc < self.out_channels,
                    plan@.len() == oc * l + o,
                    forall|oc2: int, o2: int|
                        0 <= oc2 && 0 <= o2 < l && oc2 * l + o2 < plan@.len() ==> (
                        #[trigger] self.output_taps(input_len as int, oc2, o2)) == plan@[oc2 * l + o2]@,
            {
                let row = self.output_row(input_len, out_len, oc, o);
                let ghost before = plan@;
                proof {
                    lemma_row_major_in_range(oc as int, self.out_channels as int, o as int, l);
                }
                plan.push(row);
                assert forall|oc2: int, o2: int|
                    0 <= oc2 && 0 <= o2 < l && oc2 * l + o2 < plan@.len() implies (
                    #[trigger] self.output_taps(input_len as int, oc2, o2)) == plan@[oc2 * l + o2]@ by {
                    if oc2 * l + o2 < before.len() {
                        assert(plan@[oc2 * l + o2] == before[oc2 * l + o2]);
                    } else {
                        lemma_row_major_injective(oc2, o2, oc as int, o as int, l);
                    }
                }
            }
            proof {
                assert((oc + 1) * l == oc * l + l) by (nonlinear_arith);
            }
        }
        proof {
            assert forall|oc: int, o: int|
                0 <= oc < self.out_channels && 0 <= o < l implies (
                #[trigger] self.output_taps(input_len as int, oc, o)) == plan@[oc * l + o]@ by {
                lemma_row_major_in_range(oc, self.out_channels as int, o, l);
            }
        }
        plan
    }
}

/// Law: the output positions are exactly the window starts that fit: output
/// `o` exists iff its window `o·stride .. o·stride + kernel` lies inside the
/// padded input of `len + 2·padding` cells.
pub proof fn lemma_output_length_counts_windows(
    len: int,
    kernel: int,
    stride: int,
    padding: int,
    o: int,
)
    requires
        0 <= len,
        0 <= kernel,
        0 < stride,
        0 <= padding,
        0 <= o,
    ensures
        o < spec_output_length(len, kernel, stride, padding) <==> o * stride + kernel <= len + 2
            * padding,
{
    let span = len + 2 * padding;
    assert(0 <= o * stride) by (nonlinear_arith)
        requires
            0 <= o,
            0 < stride,
    ;
    if span >= kernel {
        let d = span - kernel;
        let q = d / stride;
        assert(q * stride <= d < (q + 1) * stride) by (nonlinear_arith)
            requires
                stride > 0,
                d >= 0,
                q == d / stride,
        ;
        assert(o <= q <==> o * stride <= d) by (nonlinear_arith)
            requires
                q * stride <= d < (q + 1) * stride,
                0 <= o,
                0 < stride,
        ;
    }
}

/// Law: a longer input never gives a shorter output, and once a window fits,
/// lengthening the input by one stride adds exactly one output position.
pub proof fn lemma_output_length_monotone(a: int, b: int, kernel: int, stride: int, padding: int)
    requires
        0 <= a <= b,
        0 <= kernel,
        0 < stride,
        0 <= padding,
    ensures
        spec_output_length(a, kernel, stride, padding) <= spec_output_length(b, kernel, stride, padding),
        a + 2 * padding >= kernel ==> spec_output_length(a + stride, kernel, stride, padding)
            == spec_output_length(a, kernel, stride, padding) + 1,
{
    let da = a + 2 * padding - kernel;
    let db = b + 2 * padding - kernel;
    if da >= 0 {
        lemma_div_is_ordered(da, db, stride);
        lemma_div_plus_one(da, stride);
        assert(a + stride + 2 * padding - kernel == stride + da);
    } else if db >= 0 {
        lemma_div_pos_is_pos(db, stride);
    }
}

/// Law: accumulating the taps of output `(oc, o)` over an integer input gives
/// the convolution computed with multiplications over the zero-padded input.
pub proof fn lemma_conv1d_matches_dense(
    layer: TernaryConv1d,
    input_len: int,
    oc: int,
    o: int,
    x: Seq<int>,
)
    requires
        0 <= input_len,
        layer.in_channels * input_len <= usize::MAX,
    ensures
        apply_taps(layer.output_taps(input_len, oc, o), x) == layer.dense_output(x, input_len, oc, o),
{
    let ic_n = layer.in_channels as int;
    let k_n = layer.kernel_size as int;
    let outer = |ic: int| sum_range(k_n, layer.dense_kernel(x, input_len, oc, o, ic));
    assert forall|ic: int| 0 <= ic < ic_n implies apply_taps(
        #[trigger] layer.channel_taps(input_len, oc, o)(ic),
        x,
    ) == outer(ic) by {
        let f = layer.kernel_taps(input_len, oc, o, ic);
        let g = layer.dense_kernel(x, input_len, oc, o, ic);
        assert forall|k: int| 0 <= k < k_n implies apply_taps(#[trigger] f(k), x) == g(k) by {
            let pos = layer.source(o, k);
            if 0 <= pos < input_len {
                lemma_row_major_in_range(ic, ic_n, pos, input_len);
                lemma_apply_trit_tap(layer.weight(oc, ic, k), ic * input_len + pos, x);
            }
        }
        lemma_apply_concat_range(k_n, f, g, x);
    }
    lemma_apply_concat_range(ic_n, layer.channel_taps(input_len, oc, o), outer, x);
}

/// Law: output `(oc, o)` accumulates the zero-padded 1-D convolution. Over an
/// integer input `x` laid out as `[in_channels × input_len]`, running its taps
/// gives `Σ_ic Σ_k w[oc][ic][k] · x[ic][o·stride + k − padding]`, where the
/// weight of output channel `oc`, input channel `ic` and offset `k` is stored
/// at `oc·in_channels·kernel_size + ic·kernel_size + k`, `+1` and `-1` count as
/// themselves and any other value as zero, and positions outside
/// `0 .. input_len` read zero.
pub proof fn lemma_conv1d_accumulates_convolution(
    layer: TernaryConv1d,
    input_len: int,
    oc: int,
    o: int,
    x: Seq<int>,
)
    requires
        0 <= input_len,
        layer.in_channels * input_len <= usize::MAX,
    ensures
        apply_taps(layer.output_taps(input_len, oc, o), x) == sum_range(
            layer.in_channels as int,
            |ic: int|
                sum_range(
                    layer.kernel_size as int,
                    |k: int|
                        trit_value(
                            layer.weights@[oc * layer.in_channels * layer.kernel_size + ic
                                * layer.kernel_size + k],
                        ) * (if 0 <= o * layer.stride + k - layer.padding < input_len {
                            x[ic * input_len + (o * layer.stride + k - layer.padding)]
                        } else {
                            0
                        }),
                ),
        ),
{
    let ic_n = layer.in_channels as int;
    let k_n = layer.kernel_size as int;
    let outer = |ic: int|
        sum_range(
            layer.kernel_size as int,
            |k: int|
                trit_value(
                    layer.weights@[oc * layer.in_channels * layer.kernel_size + ic
                        * layer.kernel_size + k],
                ) * (if 0 <= o * layer.stride + k - layer.padding < input_len {
                    x[ic * input_len + (o * layer.stride + k - layer.padding)]
                } else {
                    0
                }),
        );
    assert forall|ic: int| 0 <= ic < ic_n implies apply_taps(
        #[trigger] layer.channel_taps(input_len, oc, o)(ic),
        x,
    ) == outer(ic) by {
        let f = layer.kernel_taps(input_len, oc, o, ic);
        let g = |k: int|
            trit_value(
                layer.weights@[oc * layer.in_channels * layer.kernel_size + ic * layer.kernel_size
                    + k],
            ) * (if 0 <= o * layer.stride + k - layer.padding < input_len {
                x[ic * input_len + (o * layer.stride + k - layer.padding)]
            } else {
                0
            });
        assert forall|k: int| 0 <= k < k_n implies apply_taps(#[trigger] f(k), x) == g(k) by {
            let pos = o * layer.stride + k - layer.padding;
            if 0 <= pos < input_len {
                lemma_row_major_in_range(ic, ic_n, pos, input_len);
                lemma_apply_trit_tap(layer.weight(oc, ic, k), ic * input_len + pos, x);
            }
        }
        lemma_apply_concat_range(k_n, f, g, x);
    }
    lemma_apply_concat_range(ic_n, layer.channel_taps(input_len, oc, o), outer, x);
}

/// Law: output `(oc, o)` has at most one tap per kernel weight, reads only
/// inside the `[in_channels × input_len]` input, and has no taps when all
/// weights are zero.
pub proof fn lemma_conv1d_taps_shape(layer: TernaryConv1d, input_len: int, oc: int, o: int)
    requires
        0 <= input_len,
        layer.in_channels * input_len <= usize::MAX,
    ensures
        layer.output_taps(input_len, oc, o).len() <= layer.in_channels * layer.kernel_size,
        taps_below(layer.output_taps(input_len, oc, o), layer.in_channels * input_len),
        (forall|i: int| 0 <= i < layer.weights@.len() ==> #[trigger] layer.weights@[i] == 0)
            && layer.weight_count() <= layer.weights@.len() && 0 <= oc < layer.out_channels
            ==> layer.output_taps(input_len, oc, o).len() == 0,
{
    let ic_n = layer.in_channels as int;
    let k_n = layer.kernel_size as int;
    let bound = ic_n * input_len;
    let zero = (forall|i: int| 0 <= i < layer.weights@.len() ==> #[trigger] layer.weights@[i] == 0)
        && layer.weight_count() <= layer.weights@.len() && 0 <= oc < layer.out_channels;
    let cf = layer.channel_taps(input_len, oc, o);
    assert forall|ic: int| 0 <= ic < ic_n implies (#[trigger] cf(ic)).len() <= k_n && taps_below(
        cf(ic),
        bound,
    ) && (zero ==> cf(ic).len() == 0) by {
        let f = layer.kernel_taps(input_len, oc, o, ic);
        assert forall|k: int| 0 <= k < k_n implies (#[trigger] f(k)).len() <= 1 && taps_below(
            f(k),
            bound,
        ) && (zero ==> f(k).len() == 0) by {
            let pos = layer.source(o, k);
            if 0 <= pos < input_len {
                lemma_row_major_in_range(ic, ic_n, pos, input_len);
                lemma_trit_tap_shape(layer.weight(oc, ic, k), ic * input_len + pos, bound);
                if zero {
                    lemma_row_major3_in_range(oc, layer.out_channels as int, ic, ic_n, k, k_n);
                }
            }
        }
        lemma_concat_range_len(k_n, f, 1);
        lemma_concat_range_below(k_n, f, bound);
        if zero {
            lemma_concat_range_empty(k_n, f);
        }
    }
    lemma_concat_range_len(ic_n, cf, k_n);
    lemma_concat_range_below(ic_n, cf, bound);
    if zero {
        lemma_concat_range_empty(ic_n, cf);
    }
}

} // verus!
