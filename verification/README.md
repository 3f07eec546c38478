# mach-model

Host-side logic of a transformer inference engine, verified with Verus. The library decides; it
touches no device, file or clock, and computes with no floating point. Numbers of the model are
held by their bit patterns.

## Layout

- `src/` is the library. Every function carries its contract.
  - KV placement: `kv_block_pool`, `pool_identity`, `placement`, `block_table`, `page_reuse`.
  - A batched model: `config`, `buffers`, `upload`, `forward`, `device`, `batched`, and the
    kernels it launches in `kernels` and `op_launch`.
  - Engines: `continuous` with its model in `engine_model` and `sequence`, and `cpu_engine`.
  - Placement policies: `adaptive_policy`, `adaptive_q`, `routing`, `greedy`.
  - Number formats: `float_bits`, `fp16`, `fp8`, `fp8_tensor`, `double_bits`, `npy`.
  - Images: `image_processor`, `image_resize`.
  - Laws that span functions: `anchor_laws`, `batched_laws`, `dispatch_laws`, `scratch_laws`,
    `engine_laws`, `cpu_engine_laws`, `image_laws`, and the public proof functions of the other
    modules.
- `tests/` runs the library on concrete values.
- `app/` is ordinary Rust around it: device and engine loops, floating-point arithmetic, files.
- `extras/kernels/` holds the device kernels, one file per entry point.

A plan is a value. The library turns a request into the buffers to allocate, the weights to
upload, the rows to stage, the operations to run and the bytes to move; a device implementation
carries them out in order and hands back what was sampled or read.

The library calls one crate, `serde_json`, to read the tree of an image processor configuration,
and tells pools apart by the standard library's shared pointers.
