//! 2-D convolution with ternary kernel weights.
use vstd::prelude::*;
use crate::arith::{lemma_row_major3_in_range, lemma_row_major_in_range, lemma_row_major_injective, lemma_window_position};
use crate::conv1d::{TernaryConv1d, output_length_fits, spec_output_length};
use crate::taps::{
    Tap, apply_taps, concat_range, lemma_apply_concat_range, lemma_apply_trit_tap,
    lemma_concat_range_below, lemma_concat_range_congruent, lemma_concat_range_empty,
    lemma_concat_range_len, lemma_sum_range_congruent, lemma_trit_tap_shape, sum_range, taps_below, trit_tap, trit_value,
};

verus! {

/// 2-D convolution with ternary kernel weights.
pub struct TernaryConv2d {
    pub in_channels: usize,
    pub out_channels: usize,
    pub kernel_h: usize,
    pub kernel_w: usize,
    pub stride: usize,
    pub padding: usize,
    /// `weights[oc * in_channels * kernel_h * kernel_w + ic * kernel_h * kernel_w + kh * kernel_w + kw]`
    pub weights: Vec<i8>,
}

impl TernaryConv2d {
    /// Number of kernel weights the layer reads.
    pub open spec fn weight_count(self) -> int {
        self.out_channels * self.in_channels * self.kernel_h * self.kernel_w
    }

    /// Weights per kernel window.
    pub open spec fn window_size(self) -> int {
        self.kernel_h * self.kernel_w
    }

    /// Output height for an input of height `h`.
    pub open spec fn out_h(self, h: int) -> int {
        spec_output_length(h, self.kernel_h as int, self.stride as int, self.padding as int)
    }

    /// Output width for an input of width `w`.
    pub open spec fn out_w(self, w: int) -> int {
        spec_output_length(w, self.kernel_w as int, self.stride as int, self.padding as int)
    }

    /// Both output dimensions for an `h × w` input fit in `usize`.
    pub open spec fn size_fits(self, h: int, w: int) -> bool {
        &&& output_length_fits(h, self.kernel_h as int, self.stride as int, self.padding as int)
        &&& output_length_fits(w, self.kernel_w as int, self.stride as int, self.padding as int)
    }

    /// The layer can be planned for an input of `[in_channels × h × w]`: the
    /// output dimensions and buffer, the input buffer and the window size fit
    /// in `usize`, and every kernel weight is stored.
    pub open spec fn plan_fits(self, h: int, w: int) -> bool {
        &&& self.size_fits(h, w)
        &&& self.out_channels * self.out_h(h) <= usize::MAX
        &&& self.out_channels * self.out_h(h) * self.out_w(w) <= usize::MAX
        &&& self.in_channels * h * w <= usize::MAX
        &&& self.window_size() <= usize::MAX
        &&& self.weight_count() <= self.weights@.len()
    }

    /// The weight from input channel `ic`, kernel cell `(kh, kw)`, to output channel `oc`.
    pub open spec fn weight(self, oc: int, ic: int, kh: int, kw: int) -> i8 {
        self.weights@[oc * self.in_channels * self.window_size() + ic * self.window_size() + kh
            * self.kernel_w + kw]
    }

    /// The input coordinate that output coordinate `i` reads at kernel offset
    /// `k`, counted in the unpadded input (it may fall outside it).
    pub open spec fn source(self, i: int, k: int) -> int {
        i * self.stride + k - self.padding
    }

    /// The tap (if any) of kernel cell `(kh, kw)` of input channel `ic` for
    /// output `(oc, r, c)`: none when the cell falls in the zero padding.
    pub open spec fn tap_at(
        self,
        h: int,
        w: int,
        oc: int,
        r: int,
        c: int,
        ic: int,
        kh: int,
        kw: int,
    ) -> Seq<Tap> {
        let ih = self.source(r, kh);
        let iw = self.source(c, kw);
        if 0 <= ih < h && 0 <= iw < w {
            trit_tap(self.weight(oc, ic, kh, kw), ic * h * w + ih * w + iw)
        } else {
            Seq::empty()
        }
    }

    /// The taps of kernel line `kh` of input channel `ic`, column by column.
    pub open spec fn line_taps(self, h: int, w: int, oc: int, r: int, c: int, ic: int, kh: int) -> spec_fn(
        int,
    ) -> Seq<Tap> {
        |kw: int| self.tap_at(h, w, oc, r, c, ic, kh, kw)
    }

    /// The taps of each kernel line of input channel `ic`.
    pub open spec fn window_taps(self, h: int, w: int, oc: int, r: int, c: int, ic: int) -> spec_fn(
        int,
    ) -> Seq<Tap> {
        |kh: int| concat_range(self.kernel_w as int, self.line_taps(h, w, oc, r, c, ic, kh))
    }

    /// The taps of each input channel.
    pub open spec fn channel_taps(self, h: int, w: int, oc: int, r: int, c: int) -> spec_fn(
        int,
    ) -> Seq<Tap> {
        |ic: int| concat_range(self.kernel_h as int, self.window_taps(h, w, oc, r, c, ic))
    }

    /// The taps of output cell `(r, c)` of channel `oc`: channel by channel,
    /// kernel line by line, column by column, the order in which the
    /// convolution accumulates.
    pub open spec fn output_taps(self, h: int, w: int, oc: int, r: int, c: int) -> Seq<Tap> {
        concat_range(self.in_channels as int, self.channel_taps(h, w, oc, r, c))
    }

    /// `x[ic][ih][iw]` of an `[in_channels × h × w]` input, zero in the padding.
    pub open spec fn padded_input(self, x: Seq<int>, h: int, w: int, ic: int, ih: int, iw: int) -> int {
        if 0 <= ih < h && 0 <= iw < w {
            x[ic * h * w + ih * w + iw]
        } else {
            0
        }
    }

    /// One kernel line multiplied into the padded input.
    pub open spec fn dense_line(
        self,
        x: Seq<int>,
        h: int,
        w: int,
        oc: int,
        r: int,
        c: int,
        ic: int,
        kh: int,
    ) -> spec_fn(int) -> int {
        |kw: int|
            trit_value(self.weight(oc, ic, kh, kw)) * self.padded_input(
                x,
                h,
                w,
                ic,
                self.source(r, kh),
                self.source(c, kw),
            )
    }

    /// One kernel window multiplied into the padded input, line by line.
    pub open spec fn dense_window(self, x: Seq<int>, h: int, w: int, oc: int, r: int, c: int, ic: int) -> spec_fn(
        int,
    ) -> int {
        |kh: int| sum_range(self.kernel_w as int, self.dense_line(x, h, w, oc, r, c, ic, kh))
    }

    /// Output `(oc, r, c)` of the convolution computed with multiplications
    /// over the zero-padded integer input `x`.
    pub open spec fn dense_output(self, x: Seq<int>, h: int, w: int, oc: int, r: int, c: int) -> int {
        sum_range(
            self.in_channels as int,
            |ic: int| sum_range(self.kernel_h as int, self.dense_window(x, h, w, oc, r, c, ic)),
        )
    }

    /// A layer with all-zero weights.
    pub fn new(
        in_channels: usize,
        out_channels: usize,
        kernel_h: usize,
        kernel_w: usize,
        stride: usize,
        padding: usize,
    ) -> (layer: Self)
        requires
            out_channels * in_channels <= usize::MAX,
            out_channels * in_channels * kernel_h <= usize::MAX,
            out_channels * in_channels * kernel_h * kernel_w <= usize::MAX,
        ensures
            layer.in_channels == in_channels,
            layer.out_channels == out_channels,
            layer.kernel_h == kernel_h,
            layer.kernel_w == kernel_w,
            layer.stride == stride,
            layer.padding == padding,
            layer.weights@.len() == layer.weight_count(),
            forall|i: int| 0 <= i < layer.weights@.len() ==> layer.weights@[i] == 0,
    {
        let oi: usize = out_channels * in_channels;
        let oih: usize = oi * kernel_h;
        let n: usize = oih * kernel_w;
        let weights: Vec<i8> = vec![0i8; n];
        TernaryConv2d { in_channels, out_channels, kernel_h, kernel_w, stride, padding, weights }
    }

    /// Output spatial dimensions for a given input (h, w).
    pub fn output_size(&self, h: usize, w: usize) -> (size: (usize, usize))
        requires
            self.size_fits(h as int, w as int),
        ensures
            size.0 == self.out_h(h as int),
            size.1 == self.out_w(w as int),
    {
        let span_h: usize = h + 2 * self.padding;
        let span_w: usize = w + 2 * self.padding;
        let oh: usize = match span_h.checked_sub(self.kernel_h) {
            Some(room) => room / self.stride + 1,
            None => 0,
        };
        let ow: usize = match span_w.checked_sub(self.kernel_w) {
            Some(room) => room / self.stride + 1,
            None => 0,
        };
        (oh, ow)
    }

    /// The taps of kernel line `kh` of channel `ic` for output `(oc, r, c)`.
    fn kernel_line(
        &self,
        h: usize,
        w: usize,
        oh: usize,
        ow: usize,
        oc: usize,
        r: usize,
        c: usize,
        ic: usize,
        kh: usize,
    ) -> (res: Vec<Tap>)
        requires
            self.plan_fits(h as int, w as int),
            oh == self.out_h(h as int),
            ow == self.out_w(w as int),
            oc < self.out_channels,
            r < oh,
            c < ow,
            ic < self.in_channels,
            kh < self.kernel_h,
        ensures
            res@ == self.window_taps(h as int, w as int, oc as int, r as int, c as int, ic as int)(
                kh as int,
            ),
    {
        let ghost span_h = h + 2 * self.padding;
        let ghost span_w = w + 2 * self.padding;
        let wlen: usize = self.weights.len();
        let ksize: usize = self.kernel_h * self.kernel_w;
        let mut res: Vec<Tap> = Vec::new();
        proof {
            lemma_window_position(r as int, self.stride as int, span_h, self.kernel_h as int, kh as int);
        }
        let ih0: usize = r * self.stride + kh;
        for kw in 0..self.kernel_w
            invariant
                self.plan_fits(h as int, w as int),
                oh == self.out_h(h as int),
                ow == self.out_w(w as int),
                oc < self.out_channels,
                r < oh,
                c < ow,
                ic < self.in_channels,
                kh < self.kernel_h,
                span_h == h + 2 * self.padding,
                span_w == w + 2 * self.padding,
                wlen == self.weights@.len(),
                ksize == self.window_size(),
                ih0 == r * self.stride + kh,
                res@ == concat_range(
                    kw as int,
                    self.line_taps(h as int, w as int, oc as int, r as int, c as int, ic as int, kh as int),
                ),
        {
            proof {
                lemma_window_position(c as int, self.stride as int, span_w, self.kernel_w as int, kw as int);
            }
            let iw0: usize = c * self.stride + kw;
            let ghost before = res@;
            if ih0 >= self.padding && iw0 >= self.padding {
                let ih: usize = ih0 - self.padding;
                let iw: usize = iw0 - self.padding;
                if ih < h && iw < w {
                    proof {
                        let ghost cell = kh * self.kernel_w + kw;
                        lemma_row_major_in_range(kh as int, self.kernel_h as int, kw as int, self.kernel_w as int);
                        lemma_row_major3_in_range(
                            oc as int,
                            self.out_channels as int,
                            ic as int,
                            self.in_channels as int,
                            cell,
                            self.window_size(),
                        );
                        assert(self.out_channels * self.in_channels * self.window_size()
                            == self.weight_count()) by (nonlinear_arith);
                        assert(oc * self.in_channels <= oc * self.in_channels * ksize) by (nonlinear_arith)
                            requires
                                ksize >= 1,
                        ;
                        lemma_row_major3_in_range(
                            ic as int,
                            self.in_channels as int,
                            ih as int,
                            h as int,
                            iw as int,
                            w as int,
                        );
                        assert(ic * h <= ic * h * w) by (nonlinear_arith)
                            requires
                                w >= 1,
                        ;
                    }
                    let w_idx: usize = oc * self.in_channels * ksize + ic * ksize + kh * self.kernel_w + kw;
                    let wt = self.weights[w_idx];
                    let index: usize = ic * h * w + ih * w + iw;
                    if wt == 1 {
                        res.push(Tap { index, negate: false });
                    } else if wt == -1 {
                        res.push(Tap { index, negate: true });
                    }
                }
            }
            assert(res@ =~= before + self.line_taps(
                h as int,
                w as int,
                oc as int,
                r as int,
                c as int,
                ic as int,
                kh as int,
            )(kw as int));
        }
        res
    }

    /// The taps of the kernel window of channel `ic` for output `(oc, r, c)`.
    fn kernel_window(
        &self,
        h: usize,
        w: usize,
        oh: usize,
        ow: usize,
        oc: usize,
        r: usize,
        c: usize,
        ic: usize,
    ) -> (res: Vec<Tap>)
        requires
            self.plan_fits(h as int, w as int),
            oh == self.out_h(h as int),
            ow == self.out_w(w as int),
            oc < self.out_channels,
            r < oh,
            c < ow,
            ic < self.in_channels,
        ensures
            res@ == self.channel_taps(h as int, w as int, oc as int, r as int, c as int)(ic as int),
    {
        let mut res: Vec<Tap> = Vec::new();
        for kh in 0..self.kernel_h
            invariant
                self.plan_fits(h as int, w as int),
                oh == self.out_h(h as int),
                ow == self.out_w(w as int),
                oc < self.out_channels,
                r < oh,
                c < ow,
                ic < self.in_channels,
                res@ == concat_range(
                    kh as int,
                    self.window_taps(h as int, w as int, oc as int, r as int, c as int, ic as int),
                ),
        {
            let mut part = self.kernel_line(h, w, oh, ow, oc, r, c, ic, kh);
            res.append(&mut part);
        }
        res
    }

    /// The taps of output cell `(r, c)` of channel `oc`.
    fn output_cell(&self, h: usize, w: usize, oh: usize, ow: usize, oc: usize, r: usize, c: usize) -> (res: Vec<Tap>)
        requires
            self.plan_fits(h as int, w as int),
            oh == self.out_h(h as int),
            ow == self.out_w(w as int),
            oc < self.out_channels,
            r < oh,
            c < ow,
        ensures
            res@ == self.output_taps(h as int, w as int, oc as int, r as int, c as int),
    {
        let mut res: Vec<Tap> = Vec::new();
        for ic in 0..self.in_channels
            invariant
                self.plan_fits(h as int, w as int),
                oh == self.out_h(h as int),
                ow == self.out_w(w as int),
                oc < self.out_channels,
                r < oh,
                c < ow,
                res@ == concat_range(ic as int, self.channel_taps(h as int, w as int, oc as int, r as int, c as int)),
        {
            let mut part = self.kernel_window(h, w, oh, ow, oc, r, c, ic);
            res.append(&mut part);
        }
        res
    }

    /// The tap plan of the layer for an input of `[in_channels × h × w]`
    /// (row-major): entry `oc * oh * ow + r * ow + c` lists the inputs that
    /// output cell `(r, c)` of channel `oc` adds or subtracts, in accumulation
    /// order. Cells in the padding contribute nothing.
    pub fn forward_plan(&self, h: usize, w: usize) -> (plan: Vec<Vec<Tap>>)
        requires
            self.plan_fits(h as int, w as int),
        ensures
            plan@.len() == self.out_channels * self.out_h(h as int) * self.out_w(w as int),
            forall|oc: int, r: int, c: int|
                0 <= oc < self.out_channels && 0 <= r < self.out_h(h as int) && 0 <= c < self.out_w(
                    w as int,
                ) ==> (#[trigger] self.output_taps(h as int, w as int, oc, r, c)) == plan@[oc
                    * self.out_h(h as int) * self.out_w(w as int) + r * self.out_w(w as int) + c]@,
    {
        let (oh, ow) = self.output_size(h, w);
        let ghost lh = oh as int;
        let ghost lw = ow as int;
        let mut plan: Vec<Vec<Tap>> = Vec::new();
        assert(0 * lh == 0);
        assert(0 * lw == 0);
        for oc in 0..self.out_channels
            invariant
                self.plan_fits(h as int, w as int),
                oh == self.out_h(h as int),
                ow == self.out_w(w as int),
                lh == oh,
                lw == ow,
                plan@.len() == (oc * lh) * lw,
                forall|oc2: int, r2: int, c2: int|
                    0 <= oc2 && 0 <= r2 < lh && 0 <= c2 < lw && (oc2 * lh + r2) * lw + c2 < plan@.len()
                        ==> (#[trigger] self.output_taps(h as int, w as int, oc2, r2, c2)) == plan@[(
                    oc2 * lh + r2) * lw + c2]@,
        {
            for r in 0..oh
                invariant
                    self.plan_fits(h as int, w as int),
                    oh == self.out_h(h as int),
                    ow == self.out_w(w as int),
                    lh == oh,
                    lw == ow,
                    oc < self.out_channels,
                    plan@.len() == (oc * lh + r) * lw,
                    forall|oc2: int, r2: int, c2: int|
                        0 <= oc2 && 0 <= r2 < lh && 0 <= c2 < lw && (oc2 * lh + r2) * lw + c2
                            < plan@.len() ==> (#[trigger] self.output_taps(
                            h as int,
                            w as int,
                            oc2,
                            r2,
                            c2,
                        )) == plan@[(oc2 * lh + r2) * lw + c2]@,
            {
                for c in 0..ow
                    invariant
                        self.plan_fits(h as int, w as int),
                        oh == self.out_h(h as int),
                        ow == self.out_w(w as int),
                        lh == oh,
                        lw == ow,
                        oc < self.out_channels,
                        r < oh,
                        plan@.len() == (oc * lh + r) * lw + c,
                        forall|oc2: int, r2: int, c2: int|
                            0 <= oc2 && 0 <= r2 < lh && 0 <= c2 < lw && (oc2 * lh + r2) * lw + c2
                                < plan@.len() ==> (#[trigger] self.output_taps(
                                h as int,
                                w as int,
                                oc2,
                                r2,
                                c2,
                            )) == plan@[(oc2 * lh + r2) * lw + c2]@,
                {
                    let cell = self.output_cell(h, w, oh, ow, oc, r, c);
                    let ghost before = plan@;
                    proof {
                        lemma_row_major_in_range(oc as int, self.out_channels as int, r as int, lh);
                        lemma_row_major_in_range(oc * lh + r, self.out_channels * lh, c as int, lw);
                    }
                    plan.push(cell);
                    assert forall|oc2: int, r2: int, c2: int|
                        0 <= oc2 && 0 <= r2 < lh && 0 <= c2 < lw && (oc2 * lh + r2) * lw + c2
                            < plan@.len() implies (#[trigger] self.output_taps(
                        h as int,
                        w as int,
                        oc2,
                        r2,
                        c2,
                    )) == plan@[(oc2 * lh + r2) * lw + c2]@ by {
                        if (oc2 * lh + r2) * lw + c2 < before.len() {
                            assert(plan@[(oc2 * lh + r2) * lw + c2] == before[(oc2 * lh + r2) * lw
                                + c2]);
                        } else {
                            assert(0 <= oc2 * lh) by (nonlinear_arith)
                                requires
                                    0 <= oc2,
                                    0 <= lh,
                            ;
                            lemma_row_major_injective(
                                oc2 * lh + r2,
                                c2,
                                oc * lh + r,
                                c as int,
                                lw,
                            );
                            lemma_row_major_injective(oc2, r2, oc as int, r as int, lh);
                        }
                    }
                }
                proof {
                    assert((oc * lh + r + 1) * lw == (oc * lh + r) * lw + lw) by (nonlinear_arith);
                }
            }
            proof {
                assert((oc + 1) * lh == oc * lh + lh) by (nonlinear_arith);
            }
        }
        proof {
            assert forall|oc: int, r: int, c: int|
                0 <= oc < self.out_channels && 0 <= r < lh && 0 <= c < lw implies (
                #[trigger] self.output_taps(h as int, w as int, oc, r, c)) == plan@[oc * lh * lw + r
                * lw + c]@ by {
                lemma_row_major_in_range(oc, self.out_channels as int, r, lh);
                lemma_row_major_in_range(oc * lh + r, self.out_channels * lh, c, lw);
                assert((oc * lh + r) * lw == oc * lh * lw + r * lw) by (nonlinear_arith);
            }
        }
        plan
    }
}

/// Law: accumulating the taps of output `(oc, r, c)` over an integer input
/// gives the convolution computed with multiplications over the zero-padded
/// input.
pub proof fn lemma_conv2d_matches_dense(
    layer: TernaryConv2d,
    h: int,
    w: int,
    oc: int,
    r: int,
    c: int,
    x: Seq<int>,
)
    requires
        0 <= h,
        0 <= w,
        layer.in_channels * h * w <= usize::MAX,
    ensures
        apply_taps(layer.output_taps(h, w, oc, r, c), x) == layer.dense_output(x, h, w, oc, r, c),
{
    let ic_n = layer.in_channels as int;
    let kh_n = layer.kernel_h as int;
    let kw_n = layer.kernel_w as int;
    let outer = |ic: int| sum_range(kh_n, layer.dense_window(x, h, w, oc, r, c, ic));
    assert forall|ic: int| 0 <= ic < ic_n implies apply_taps(
        #[trigger] layer.channel_taps(h, w, oc, r, c)(ic),
        x,
    ) == outer(ic) by {
        let fw = layer.window_taps(h, w, oc, r, c, ic);
        let gw = layer.dense_window(x, h, w, oc, r, c, ic);
        assert forall|kh: int| 0 <= kh < kh_n implies apply_taps(#[trigger] fw(kh), x) == gw(kh) by {
            let f = layer.line_taps(h, w, oc, r, c, ic, kh);
            let g = layer.dense_line(x, h, w, oc, r, c, ic, kh);
            assert forall|kw: int| 0 <= kw < kw_n implies apply_taps(#[trigger] f(kw), x) == g(kw) by {
                let ih = layer.source(r, kh);
                let iw = layer.source(c, kw);
                if 0 <= ih < h && 0 <= iw < w {
                    lemma_row_major3_in_range(ic, ic_n, ih, h, iw, w);
                    lemma_apply_trit_tap(layer.weight(oc, ic, kh, kw), ic * h * w + ih * w + iw, x);
                }
            }
            lemma_apply_concat_range(kw_n, f, g, x);
        }
        lemma_apply_concat_range(kh_n, fw, gw, x);
    }
    lemma_apply_concat_range(ic_n, layer.channel_taps(h, w, oc, r, c), outer, x);
}

/// Law: output `(oc, r, c)` accumulates the zero-padded 2-D convolution.
/// Over an integer input `x` laid out as `[in_channels × h × w]`, running its
/// taps gives `Σ_ic Σ_kh Σ_kw w[oc][ic][kh][kw] · x[ic][r·stride + kh −
/// padding][c·stride + kw − padding]`, where the weight is stored at
/// `oc·in_channels·kernel_h·kernel_w + ic·kernel_h·kernel_w + kh·kernel_w +
/// kw`, `+1` and `-1` count as themselves and any other value as zero, and
/// cells outside the `h × w` plane read zero.
pub proof fn lemma_conv2d_accumulates_convolution(
    layer: TernaryConv2d,
    h: int,
    w: int,
    oc: int,
    r: int,
    c: int,
    x: Seq<int>,
)
    requires
        0 <= h,
        0 <= w,
        0 <= oc,
        layer.in_channels * h * w <= usize::MAX,
    ensures
        apply_taps(layer.output_taps(h, w, oc, r, c), x) == sum_range(
            layer.in_channels as int,
            |ic: int|
                sum_range(
                    layer.kernel_h as int,
                    |kh: int|
                        sum_range(
                            layer.kernel_w as int,
                            |kw: int|
                                trit_value(
                                    layer.weights@[oc * layer.in_channels * layer.kernel_h
                                        * layer.kernel_w + ic * layer.kernel_h * layer.kernel_w
                                        + kh * layer.kernel_w + kw],
                                ) * (if 0 <= r * layer.stride + kh - layer.padding < h && 0 <= c
                                    * layer.stride + kw - layer.padding < w {
                                    x[ic * h * w + (r * layer.stride + kh - layer.padding) * w + (c
                                        * layer.stride + kw - layer.padding)]
                                } else {
                                    0
                                }),
                        ),
                ),
        ),
{
    let ic_n = layer.in_channels as int;
    let kh_n = layer.kernel_h as int;
    let kw_n = layer.kernel_w as int;
    let outer = |ic: int|
        sum_range(
            layer.kernel_h as int,
            |kh: int|
                sum_range(
                    layer.kernel_w as int,
                    |kw: int|
                        trit_value(
                            layer.weights@[oc * layer.in_channels * layer.kernel_h * layer.kernel_w
                                + ic * layer.kernel_h * layer.kernel_w + kh * layer.kernel_w + kw],
                        ) * (if 0 <= r * layer.stride + kh - layer.padding < h && 0 <= c
                            * layer.stride + kw - layer.padding < w {
                            x[ic * h * w + (r * layer.stride + kh - layer.padding) * w + (c
                                * layer.stride + kw - layer.padding)]
                        } else {
                            0
                        }),
                ),
        );
    assert forall|ic: int| 0 <= ic < ic_n implies apply_taps(
        #[trigger] layer.channel_taps(h, w, oc, r, c)(ic),
        x,
    ) == outer(ic) by {
        let fw = layer.window_taps(h, w, oc, r, c, ic);
        let gw = |kh: int|
            sum_range(
                layer.kernel_w as int,
                |kw: int|
                    trit_value(
                        layer.weights@[oc * layer.in_channels * layer.kernel_h * layer.kernel_w + ic
                            * layer.kernel_h * layer.kernel_w + kh * layer.kernel_w + kw],
                    ) * (if 0 <= r * layer.stride + kh - layer.padding < h && 0 <= c * layer.stride
                        + kw - layer.padding < w {
                        x[ic * h * w + (r * layer.stride + kh - layer.padding) * w + (c
                            * layer.stride + kw - layer.padding)]
                    } else {
                        0
                    }),
            );
        assert(oc * layer.in_channels * layer.window_size() == oc * layer.in_channels
            * layer.kernel_h * layer.kernel_w) by (nonlinear_arith);
        assert(ic * layer.window_size() == ic * layer.kernel_h * layer.kernel_w) by (nonlinear_arith);
        assert forall|kh: int| 0 <= kh < kh_n implies apply_taps(#[trigger] fw(kh), x) == gw(kh) by {
            let f = layer.line_taps(h, w, oc, r, c, ic, kh);
            let g = |kw: int|
                trit_value(
                    layer.weights@[oc * layer.in_channels * layer.kernel_h * layer.kernel_w + ic
                        * layer.kernel_h * layer.kernel_w + kh * layer.kernel_w + kw],
                ) * (if 0 <= r * layer.stride + kh - layer.padding < h && 0 <= c * layer.stride + kw
                    - layer.padding < w {
                    x[ic * h * w + (r * layer.stride + kh - layer.padding) * w + (c * layer.stride
                        + kw - layer.padding)]
                } else {
                    0
                });
            assert forall|kw: int| 0 <= kw < kw_n implies apply_taps(#[trigger] f(kw), x) == g(kw) by {
                let ih = r * layer.stride + kh - layer.padding;
                let iw = c * layer.stride + kw - layer.padding;
                if 0 <= ih < h && 0 <= iw < w {
                    lemma_row_major3_in_range(ic, ic_n, ih, h, iw, w);
                    lemma_apply_trit_tap(layer.weight(oc, ic, kh, kw), ic * h * w + ih * w + iw, x);
                }
            }
            lemma_apply_concat_range(kw_n, f, g, x);
        }
        lemma_apply_concat_range(kh_n, fw, gw, x);
    }
    lemma_apply_concat_range(ic_n, layer.channel_taps(h, w, oc, r, c), outer, x);
}

/// Law: output `(oc, r, c)` has at most one tap per kernel weight, reads only
/// inside the `[in_channels × h × w]` input, and has no taps when all weights
/// are zero.
pub proof fn lemma_conv2d_taps_shape(layer: TernaryConv2d, h: int, w: int, oc: int, r: int, c: int)
    requires
        0 <= h,
        0 <= w,
        layer.in_channels * h * w <= usize::MAX,
    ensures
        layer.output_taps(h, w, oc, r, c).len() <= layer.in_channels * (layer.kernel_h
            * layer.kernel_w),
        taps_below(layer.output_taps(h, w, oc, r, c), layer.in_channels * h * w),
        (forall|i: int| 0 <= i < layer.weights@.len() ==> #[trigger] layer.weights@[i] == 0)
            && layer.weight_count() <= layer.weights@.len() && 0 <= oc < layer.out_channels
            ==> layer.output_taps(h, w, oc, r, c).len() == 0,
{
    let ic_n = layer.in_channels as int;
    let kh_n = layer.kernel_h as int;
    let kw_n = layer.kernel_w as int;
    let bound = ic_n * h * w;
    let zero = (forall|i: int| 0 <= i < layer.weights@.len() ==> #[trigger] layer.weights@[i] == 0)
        && layer.weight_count() <= layer.weights@.len() && 0 <= oc < layer.out_channels;
    let cf = layer.channel_taps(h, w, oc, r, c);
    assert(0 <= kh_n * kw_n) by (nonlinear_arith)
        requires
            0 <= kh_n,
            0 <= kw_n,
    ;
    assert forall|ic: int| 0 <= ic < ic_n implies (#[trigger] cf(ic)).len() <= kh_n * kw_n
        && taps_below(cf(ic), bound) && (zero ==> cf(ic).len() == 0) by {
        let fw = layer.window_taps(h, w, oc, r, c, ic);
        assert forall|kh: int| 0 <= kh < kh_n implies (#[trigger] fw(kh)).len() <= kw_n
            && taps_below(fw(kh), bound) && (zero ==> fw(kh).len() == 0) by {
            let f = layer.line_taps(h, w, oc, r, c, ic, kh);
            assert forall|kw: int| 0 <= kw < kw_n implies (#[trigger] f(kw)).len() <= 1 && taps_below(
                f(kw),
                bound,
            ) && (zero ==> f(kw).len() == 0) by {
                let ih = layer.source(r, kh);
                let iw = layer.source(c, kw);
                if 0 <= ih < h && 0 <= iw < w {
                    lemma_row_major3_in_range(ic, ic_n, ih, h, iw, w);
                    lemma_trit_tap_shape(layer.weight(oc, ic, kh, kw), ic * h * w + ih * w + iw, bound);
                    if zero {
                        lemma_row_major_in_range(kh, kh_n, kw, kw_n);
                        lemma_row_major3_in_range(
                            oc,
                            layer.out_channels as int,
                            ic,
                            ic_n,
                            kh * kw_n + kw,
                            kh_n * kw_n,
                        );
                        assert(layer.out_channels * layer.in_channels * (layer.kernel_h
                            * layer.kernel_w) == layer.out_channels * layer.in_channels
                            * layer.kernel_h * layer.kernel_w) by (nonlinear_arith);
                    }
                }
            }
            lemma_concat_range_len(kw_n, f, 1);
            lemma_concat_range_below(kw_n, f, bound);
            if zero {
                lemma_concat_range_empty(kw_n, f);
            }
        }
        lemma_concat_range_len(kh_n, fw, kw_n);
        lemma_concat_range_below(kh_n, fw, bound);
        if zero {
            lemma_concat_range_empty(kh_n, fw);
        }
    }
    lemma_concat_range_len(ic_n, cf, kh_n * kw_n);
    lemma_concat_range_below(ic_n, cf, bound);
    if zero {
        lemma_concat_range_empty(ic_n, cf);
    }
}

/// Cell `(ic, i, j)` of an `[in_channels × hh × ww]` row-major input.
pub open spec fn cell(x: Seq<int>, hh: int, ww: int, ic: int, i: int, j: int) -> int {
    x[ic * hh * ww + i * ww + j]
}

/// `xp` is the `[in_channels × (h + 2p) × (w + 2p)]` input obtained by
/// surrounding every `h × w` channel plane of `x` with `p` zero rows and
/// columns on each side.
pub open spec fn is_zero_framed(x: Seq<int>, xp: Seq<int>, channels: int, h: int, w: int, p: int) -> bool {
    forall|ic: int, i: int, j: int|
        0 <= ic < channels && 0 <= i < h + 2 * p && 0 <= j < w + 2 * p ==> #[trigger] cell(
            xp,
            h + 2 * p,
            w + 2 * p,
            ic,
            i,
            j,
        ) == (if p <= i < p + h && p <= j < p + w {
            cell(x, h, w, ic, i - p, j - p)
        } else {
            0
        })
}

/// Law: both output dimensions of a 2-D convolution are 1-D output lengths,
/// the height with `kernel_h` and the width with `kernel_w`.
pub proof fn lemma_output_size_per_axis(
    layer: TernaryConv2d,
    rows: TernaryConv1d,
    cols: TernaryConv1d,
    h: int,
    w: int,
)
    requires
        rows.kernel_size == layer.kernel_h,
        cols.kernel_size == layer.kernel_w,
        rows.stride == layer.stride,
        cols.stride == layer.stride,
        rows.padding == layer.padding,
        cols.padding == layer.padding,
    ensures
        layer.out_h(h) == rows.out_len(h),
        layer.out_w(w) == cols.out_len(w),
{
}

/// Law: an unpadded 2-D convolution with a `1 × k` kernel over a single input
/// row is the 1-D convolution with the same weights: one output row, of the
/// 1-D output length, whose every output reads the same inputs with the same
/// signs in the same order.
pub proof fn lemma_single_row_is_conv1d(
    layer: TernaryConv2d,
    line: TernaryConv1d,
    len: int,
    oc: int,
    o: int,
)
    requires
        layer.in_channels == line.in_channels,
        layer.out_channels == line.out_channels,
        layer.kernel_h == 1,
        layer.kernel_w == line.kernel_size,
        layer.stride == line.stride,
        line.stride > 0,
        layer.padding == 0,
        line.padding == 0,
        layer.weights@ == line.weights@,
        0 <= len,
    ensures
        layer.out_h(1) == 1,
        layer.out_w(len) == line.out_len(len),
        layer.output_taps(1, len, oc, 0, o) == line.output_taps(len, oc, o),
{
    let f = layer.channel_taps(1, len, oc, 0, o);
    let g = line.channel_taps(len, oc, o);
    assert forall|ic: int| 0 <= ic < layer.in_channels implies #[trigger] f(ic) == g(ic) by {
        let fl = layer.line_taps(1, len, oc, 0, o, ic, 0);
        let gl = line.kernel_taps(len, oc, o, ic);
        assert forall|kw: int| 0 <= kw < layer.kernel_w implies #[trigger] fl(kw) == gl(kw) by {
            assert(layer.window_size() == line.kernel_size);
            assert(ic * 1 * len + 0 * len == ic * len);
        }
        lemma_concat_range_congruent(layer.kernel_w as int, fl, gl);
        let fw = layer.window_taps(1, len, oc, 0, o, ic);
        assert(concat_range(0, fw) == Seq::<Tap>::empty());
        assert(concat_range(1, fw) =~= fw(0));
    }
    lemma_concat_range_congruent(layer.in_channels as int, f, g);
}

/// Law: zero padding is a zero frame. Running output `(oc, r, c)` of a layer
/// with padding `p` on `x` gives what the same layer without padding gives on
/// `x` framed by `p` zero rows and columns; the output dimensions agree too.
pub proof fn lemma_padding_is_zero_frame(
    layer: TernaryConv2d,
    bare: TernaryConv2d,
    h: int,
    w: int,
    oc: int,
    r: int,
    c: int,
    x: Seq<int>,
    xp: Seq<int>,
)
    requires
        bare.in_channels == layer.in_channels,
        bare.out_channels == layer.out_channels,
        bare.kernel_h == layer.kernel_h,
        bare.kernel_w == layer.kernel_w,
        bare.stride == layer.stride,
        bare.padding == 0,
        bare.weights@ == layer.weights@,
        0 <= h,
        0 <= w,
        0 <= r,
        0 <= c,
        layer.in_channels * h * w <= usize::MAX,
        layer.in_channels * (h + 2 * layer.padding) * (w + 2 * layer.padding) <= usize::MAX,
        is_zero_framed(x, xp, layer.in_channels as int, h, w, layer.padding as int),
    ensures
        layer.out_h(h) == bare.out_h(h + 2 * layer.padding),
        layer.out_w(w) == bare.out_w(w + 2 * layer.padding),
        apply_taps(layer.output_taps(h, w, oc, r, c), x) == apply_taps(
            bare.output_taps(h + 2 * layer.padding, w + 2 * layer.padding, oc, r, c),
            xp,
        ),
{
    let p = layer.padding as int;
    let hh = h + 2 * p;
    let ww = w + 2 * p;
    let ic_n = layer.in_channels as int;
    let kh_n = layer.kernel_h as int;
    let kw_n = layer.kernel_w as int;
    lemma_conv2d_matches_dense(layer, h, w, oc, r, c, x);
    lemma_conv2d_matches_dense(bare, hh, ww, oc, r, c, xp);
    assert forall|ic: int| 0 <= ic < ic_n implies #[trigger] sum_range(
        kh_n,
        layer.dense_window(x, h, w, oc, r, c, ic),
    ) == sum_range(kh_n, bare.dense_window(xp, hh, ww, oc, r, c, ic)) by {
        let fw = layer.dense_window(x, h, w, oc, r, c, ic);
        let gw = bare.dense_window(xp, hh, ww, oc, r, c, ic);
        assert forall|kh: int| 0 <= kh < kh_n implies #[trigger] fw(kh) == gw(kh) by {
            let f = layer.dense_line(x, h, w, oc, r, c, ic, kh);
            let g = bare.dense_line(xp, hh, ww, oc, r, c, ic, kh);
            assert forall|kw: int| 0 <= kw < kw_n implies #[trigger] f(kw) == g(kw) by {
                let i = r * layer.stride + kh;
                let j = c * layer.stride + kw;
                assert(0 <= r * layer.stride) by (nonlinear_arith)
                    requires
                        0 <= r,
                ;
                assert(0 <= c * layer.stride) by (nonlinear_arith)
                    requires
                        0 <= c,
                ;
                assert(bare.weight(oc, ic, kh, kw) == layer.weight(oc, ic, kh, kw));
                if i < hh && j < ww {
                    assert(cell(xp, hh, ww, ic, i, j) == (if p <= i < p + h && p <= j < p + w {
                        cell(x, h, w, ic, i - p, j - p)
                    } else {
                        0
                    }));
                }
            }
            lemma_sum_range_congruent(kw_n, f, g);
        }
        lemma_sum_range_congruent(kh_n, fw, gw);
    }
    lemma_sum_range_congruent(
        ic_n,
        |ic: int| sum_range(kh_n, layer.dense_window(x, h, w, oc, r, c, ic)),
        |ic: int| sum_range(kh_n, bare.dense_window(xp, hh, ww, oc, r, c, ic)),
    );
}

} // verus!
