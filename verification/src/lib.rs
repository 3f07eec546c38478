//! Host-side logic of a transformer inference engine: paged KV placement, batching and
//! scheduling decisions, kernel launch planning, number formats and image preprocessing.
//! Device work and floating-point arithmetic live outside.

pub mod adaptive_policy;
pub mod adaptive_q;
pub mod anchor_laws;
pub mod batch_laws;
pub mod batched;
pub mod batched_laws;
pub mod block_table;
pub mod buffers;
pub mod config;
pub mod config_laws;
pub mod continuous;
pub mod cpu_engine;
pub mod cpu_engine_laws;
pub mod cpu_request_laws;
pub mod device;
pub mod dispatch_laws;
pub mod double_bits;
pub mod engine_laws;
pub mod engine_model;
pub mod expert_rows;
pub mod float_bits;
pub mod forward;
pub mod forward_laws;
pub mod fp16;
pub mod fp8;
pub mod fp8_tensor;
pub mod greedy;
pub mod image_laws;
pub mod image_processor;
pub mod image_resize;
pub mod kernels;
pub mod kv_block_pool;
pub mod launch_laws;
pub mod lifecycle_laws;
pub mod meaning;
pub mod network;
pub mod notes_laws;
pub mod npy;
pub mod npy_laws;
pub mod number_laws;
pub mod op_launch;
pub mod packing_laws;
pub mod page_reuse;
pub mod patch_laws;
pub mod pixel_laws;
pub mod placement;
pub mod pool_identity;
pub mod room_laws;
pub mod routing;
pub mod scratch_laws;
pub mod sequence;
pub mod staging_laws;
pub mod stop_laws;
pub mod upload;
pub mod upload_laws;
