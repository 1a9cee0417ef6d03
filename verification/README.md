# ternary_tnn

Ternary neural-network layers (weights in {-1, 0, +1}) whose integer logic is
proved with Verus.

- `src/` is the verified library. For a LUT matrix–vector product and for 1-D
  and 2-D convolutions it builds *tap plans*: for every output, the ordered
  list of input indices it adds or subtracts. The contracts pin each plan to
  its definition (channel by channel, kernel cell by kernel cell, zero
  padding skipped), and proof functions show that running a plan on integer
  inputs equals the multiply-accumulate (or zero-padded convolution) it stands
  for, that every tap reads inside the input, and that all-zero weights give
  empty plans. Output shapes and operation counts are verified too.
- `app/` holds what works on `f32`: activation and weight quantization, the
  straight-through estimator, the linear layer with its f32 scales, and the
  forward passes, which accumulate f32 inputs along the verified plans.
- `tests/` exercises the library on concrete values.
