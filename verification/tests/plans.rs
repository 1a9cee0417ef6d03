use ternary_tnn::{lut_matmul_plan, matvec_plan, Tap, TernaryConv1d, TernaryConv2d};

/// Accumulates `input` along the taps of one output.
fn run(taps: &[Tap], input: &[f32]) -> f32 {
    let mut sum = 0.0f32;
    for t in taps {
        if t.negate {
            sum -= input[t.index];
        } else {
            sum += input[t.index];
        }
    }
    sum
}

fn run_plan(plan: &[Vec<Tap>], input: &[f32]) -> Vec<f32> {
    plan.iter().map(|taps| run(taps, input)).collect()
}

// --- LUT matmul ---

#[test]
fn lut_matmul_matches_naive() {
    let weights: Vec<i8> = vec![1, -1, 0, 1, 0, 1];
    let input: Vec<f32> = vec![1.0, 2.0, 3.0];
    let out = run_plan(&lut_matmul_plan(&weights, 2, 3), &input);
    // row0: 1*1 + (-1)*2 + 0*3 = -1
    // row1: 1*1 + 0*2 + 1*3 = 4
    assert!((out[0] - (-1.0)).abs() < 1e-6, "row0 = {}", out[0]);
    assert!((out[1] - 4.0).abs() < 1e-6, "row1 = {}", out[1]);
}

#[test]
fn lut_matmul_all_zero_weights() {
    let weights = vec![0i8; 6];
    let input = vec![1.0f32, 2.0, 3.0];
    let plan = lut_matmul_plan(&weights, 2, 3);
    let out = run_plan(&plan, &input);
    for &v in &out {
        assert!(v.abs() < 1e-9);
    }
    assert!(plan.iter().all(|taps| taps.is_empty()));
}

#[test]
fn lut_plan_lists_signed_columns_in_order() {
    let weights: Vec<i8> = vec![1, -1, 0, 1, 0, 1];
    let plan = lut_matmul_plan(&weights, 2, 3);
    assert_eq!(
        plan,
        vec![
            vec![Tap { index: 0, negate: false }, Tap { index: 1, negate: true }],
            vec![Tap { index: 0, negate: false }, Tap { index: 2, negate: false }],
        ]
    );
}

#[test]
fn lut_plan_skips_non_trit_weights() {
    let weights: Vec<i8> = vec![2, -1, -7, 1];
    let plan = lut_matmul_plan(&weights, 1, 4);
    assert_eq!(plan, vec![vec![Tap { index: 1, negate: true }, Tap { index: 3, negate: false }]]);
}

#[test]
fn matvec_plan_ignores_weights_beyond_the_matrix() {
    let weights: Vec<i8> = vec![1, 1, -1, -1, 1];
    let plan = matvec_plan(&weights, 2, 2);
    assert_eq!(plan.len(), 2);
    assert_eq!(plan[1], vec![Tap { index: 0, negate: true }, Tap { index: 1, negate: true }]);
}

#[test]
fn lut_plan_with_no_rows_or_columns() {
    assert!(lut_matmul_plan(&[], 0, 5).is_empty());
    let plan = lut_matmul_plan(&[], 3, 0);
    assert_eq!(plan, vec![Vec::<Tap>::new(); 3]);
}

// --- layer shapes that a linear layer runs on ---

#[test]
fn linear_forward_output_length() {
    // A fresh 8 -> 4 layer holds 4 × 8 zero weights.
    let weights = vec![0i8; 4 * 8];
    let input = vec![1.0f32; 8];
    assert_eq!(run_plan(&matvec_plan(&weights, 4, 8), &input).len(), 4);
}

#[test]
fn linear_known_weights_known_output() {
    // One output neuron, weights = [1, 0, -1], scale = 1.0
    let weights = vec![1i8, 0, -1];
    let scales = vec![1.0f32];
    let plan = matvec_plan(&weights, 1, 3);
    let out: Vec<f32> = run_plan(&plan, &[2.0, 5.0, 3.0])
        .iter()
        .zip(scales.iter())
        .map(|(r, s)| r * s)
        .collect();
    // 1*2 + 0*5 + (-1)*3 = 2 - 3 = -1
    assert!((out[0] - (-1.0)).abs() < 1e-6, "got {}", out[0]);
}

// --- TernaryConv1d ---

#[test]
fn conv1d_output_length_no_padding() {
    let c = TernaryConv1d::new(1, 1, 3, 1, 0);
    assert_eq!(c.output_length(10), 8); // (10 - 3) / 1 + 1 = 8
}

#[test]
fn conv1d_output_length_with_padding() {
    let c = TernaryConv1d::new(1, 1, 3, 1, 1);
    assert_eq!(c.output_length(10), 10); // (10 + 2 - 3) / 1 + 1 = 10
}

#[test]
fn conv1d_output_length_strided_and_saturating() {
    let c = TernaryConv1d::new(1, 1, 3, 2, 0);
    assert_eq!(c.output_length(10), 4); // (10 - 3) / 2 + 1 = 4
    let wide = TernaryConv1d::new(1, 1, 20, 1, 0);
    assert_eq!(wide.output_length(10), 0); // kernel longer than input: no window fits
    let padded = TernaryConv1d::new(1, 1, 5, 2, 1);
    assert_eq!(padded.output_length(2), 0); // padded length 4 < kernel 5
    assert_eq!(padded.output_length(3), 1); // (3 + 2 - 5) / 2 + 1
}

#[test]
fn conv1d_forward_shape() {
    let mut c = TernaryConv1d::new(2, 3, 3, 1, 0);
    // Fill with +1 weights for a known result
    c.weights = vec![1i8; 3 * 2 * 3];
    let input = vec![1.0f32; 2 * 10]; // 2 channels × 10 time steps
    let out = run_plan(&c.forward_plan(10), &input);
    // out_len = 8, out_channels = 3
    assert_eq!(out.len(), 3 * 8);
    for &v in &out {
        assert!((v - 6.0).abs() < 1e-6);
    }
}

#[test]
fn conv1d_new_is_zeroed() {
    let c = TernaryConv1d::new(2, 3, 4, 1, 1);
    assert_eq!(c.weights, vec![0i8; 24]);
    assert!(c.forward_plan(5).iter().all(|t| t.is_empty()));
}

#[test]
fn conv1d_padding_reads_zero() {
    // One channel, kernel [1, -1, 1], padding 1: the window at o = 0 covers
    // the padding cell, input[0], input[1].
    let mut c = TernaryConv1d::new(1, 1, 3, 1, 1);
    c.weights = vec![1, -1, 1];
    let plan = c.forward_plan(4);
    assert_eq!(plan.len(), 4);
    assert_eq!(plan[0], vec![Tap { index: 0, negate: true }, Tap { index: 1, negate: false }]);
    assert_eq!(
        plan[1],
        vec![
            Tap { index: 0, negate: false },
            Tap { index: 1, negate: true },
            Tap { index: 2, negate: false },
        ]
    );
    assert_eq!(plan[3], vec![Tap { index: 2, negate: false }, Tap { index: 3, negate: true }]);
    let out = run_plan(&plan, &[1.0, 2.0, 3.0, 4.0]);
    assert_eq!(out, vec![1.0, 2.0, 3.0, -1.0]);
}

#[test]
fn conv1d_channels_are_laid_out_row_major() {
    // Two input channels, two output channels, kernel 1.
    let mut c = TernaryConv1d::new(2, 2, 1, 1, 0);
    // oc 0: +ch0 -ch1 ; oc 1: 0*ch0 +ch1
    c.weights = vec![1, -1, 0, 1];
    let input = [1.0f32, 2.0, 10.0, 20.0]; // ch0 = [1, 2], ch1 = [10, 20]
    let out = run_plan(&c.forward_plan(2), &input);
    assert_eq!(out, vec![-9.0, -18.0, 10.0, 20.0]);
}

// --- TernaryConv2d ---

#[test]
fn conv2d_output_size_no_padding() {
    let c = TernaryConv2d::new(1, 1, 3, 3, 1, 0);
    assert_eq!(c.output_size(8, 8), (6, 6)); // (8-3)/1+1 = 6
}

#[test]
fn conv2d_output_size_padding_and_stride() {
    let c = TernaryConv2d::new(1, 1, 3, 2, 2, 1);
    assert_eq!(c.output_size(7, 5), (4, 3)); // (7+2-3)/2+1, (5+2-2)/2+1
}

#[test]
fn conv2d_forward_shape() {
    let c = TernaryConv2d::new(1, 2, 3, 3, 1, 0);
    let input = vec![1.0f32; 1 * 8 * 8];
    let out = run_plan(&c.forward_plan(8, 8), &input);
    let (oh, ow) = c.output_size(8, 8);
    assert_eq!(out.len(), 2 * oh * ow);
}

#[test]
fn conv2d_known_kernel_known_output() {
    // 1 channel, 3×3 input 1..9, 2×2 kernel [[1, 0], [0, -1]], stride 1.
    let mut c = TernaryConv2d::new(1, 1, 2, 2, 1, 0);
    c.weights = vec![1, 0, 0, -1];
    let input: Vec<f32> = (1..=9).map(|v| v as f32).collect();
    let plan = c.forward_plan(3, 3);
    assert_eq!(plan[0], vec![Tap { index: 0, negate: false }, Tap { index: 4, negate: true }]);
    let out = run_plan(&plan, &input);
    // x[r][c] - x[r+1][c+1] = -4 everywhere
    assert_eq!(out, vec![-4.0; 4]);
}

#[test]
fn conv2d_padding_cells_contribute_nothing() {
    // All-ones 3×3 kernel, padding 1 on a 2×2 input of ones: every output
    // sees all four inputs.
    let mut c = TernaryConv2d::new(1, 1, 3, 3, 1, 1);
    c.weights = vec![1; 9];
    let plan = c.forward_plan(2, 2);
    assert_eq!(plan.len(), 4);
    let out = run_plan(&plan, &[1.0; 4]);
    assert_eq!(out, vec![4.0; 4]);
}

#[test]
fn conv_with_kernel_longer_than_input_has_empty_plan() {
    let mut c = TernaryConv1d::new(1, 2, 5, 1, 0);
    c.weights = vec![1; 10];
    assert!(c.forward_plan(3).is_empty());
    let d = TernaryConv2d::new(1, 1, 4, 2, 1, 0);
    assert_eq!(d.output_size(3, 5), (0, 4));
    assert!(d.forward_plan(3, 5).is_empty());
}

#[test]
fn output_length_grows_by_one_per_stride() {
    let c = TernaryConv1d::new(1, 1, 3, 2, 1);
    let mut prev = c.output_length(1);
    for len in 2..30 {
        let cur = c.output_length(len);
        assert!(prev <= cur);
        prev = cur;
    }
    for len in 1..20 {
        assert_eq!(c.output_length(len + 2), c.output_length(len) + 1);
    }
}

#[test]
fn stacked_matrices_stack_plans() {
    let w1: Vec<i8> = vec![1, 0, -1, 0, 1, 1];
    let w2: Vec<i8> = vec![-1, -1, 0];
    let stacked: Vec<i8> = [w1.clone(), w2.clone()].concat();
    let mut expected = lut_matmul_plan(&w1, 2, 3);
    expected.extend(lut_matmul_plan(&w2, 1, 3));
    assert_eq!(lut_matmul_plan(&stacked, 3, 3), expected);
}

#[test]
fn single_row_conv2d_is_conv1d() {
    let weights: Vec<i8> = vec![1, -1, 0, 1, 1, 0, -1, 1, -1, 0, 0, 1];
    let mut line = TernaryConv1d::new(2, 2, 3, 2, 0);
    line.weights = weights.clone();
    let mut plane = TernaryConv2d::new(2, 2, 1, 3, 2, 0);
    plane.weights = weights;
    assert_eq!(plane.output_size(1, 9), (1, line.output_length(9)));
    assert_eq!(plane.forward_plan(1, 9), line.forward_plan(9));
}

#[test]
fn conv2d_padding_is_a_zero_frame() {
    let weights: Vec<i8> = vec![1, -1, 0, 1, 0, -1, 1, 1, -1];
    let mut padded = TernaryConv2d::new(1, 1, 3, 3, 1, 1);
    padded.weights = weights.clone();
    let mut bare = TernaryConv2d::new(1, 1, 3, 3, 1, 0);
    bare.weights = weights;
    let x: Vec<f32> = (1..=12).map(|v| v as f32).collect(); // 3 × 4
    let mut framed = vec![0.0f32; 5 * 6];
    for i in 0..3 {
        for j in 0..4 {
            framed[(i + 1) * 6 + (j + 1)] = x[i * 4 + j];
        }
    }
    assert_eq!(padded.output_size(3, 4), bare.output_size(5, 6));
    let a = run_plan(&padded.forward_plan(3, 4), &x);
    let b = run_plan(&bare.forward_plan(5, 6), &framed);
    assert_eq!(a, b);
}
