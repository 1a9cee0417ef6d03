//! Ternary neural-network layers whose weights live in {-1, 0, +1}.
//!
//! The layers never multiply: every weight either adds an input, subtracts it,
//! or skips it. This crate computes, with proofs, which inputs each output
//! reads and with which sign ("tap plans"), the shapes of convolution outputs,
//! and operation counts. The caller accumulates its own activations along a
//! plan.

mod arith;
pub mod ops;
pub mod taps;
pub mod lut;
pub mod conv1d;
pub mod conv2d;

pub use conv1d::TernaryConv1d;
pub use conv2d::TernaryConv2d;
pub use lut::{lut_matmul_plan, matvec_plan};
pub use ops::{count_ops_float, count_ops_ternary};
pub use taps::Tap;
