//! The forward pass as a sequence of device operations.
//!
//! What a step issues is decided here from the configuration, the mode of the model and the
//! tensors that each layer carries; carrying the operations out is left to the device.

use vstd::prelude::*;

use crate::config::Config;
use crate::config::ModelDType;
use crate::device::Buf;
use crate::device::DeviceCopy;
use crate::device::ExpertSource;
use crate::device::GemmPath;
use crate::device::MoeTrace;
use crate::device::Op;
use crate::device::ProfPoint;
use crate::device::Run;
use crate::device::Tensor;
use crate::device::Weight;

verus! {

/// Largest row count that takes the custom GEMV kernel; above it, weight reuse across rows
/// makes the library GEMM faster.
pub const GEMV_MAX_M: i32 = 8;

/// Largest reduction width that the GEMV kernel can stage in its 48 KB shared row buffer.
/// Dispatch falls back to the library GEMM above it.
pub const GEMV_MAX_D: i32 = 12_288;

/// What one layer carries on the device, as far as dispatch depends on it.
#[derive(Debug, Clone, Copy, PartialEq, Eq, Structural)]
pub struct LayerDev {
    pub has_bq: bool,
    pub has_bk: bool,
    pub has_bv: bool,
    pub has_q_norm: bool,
    /// The layer routes to experts.
    pub has_router: bool,
    /// The layer has shared experts, in whatever form.
    pub has_shared: bool,
    /// The layer is a linear-attention layer.
    pub has_gdn: bool,
    /// Tensors that lie on the device as packed int4 only.
    pub q4_wq: bool,
    pub q4_wk: bool,
    pub q4_wv: bool,
    pub q4_wo: bool,
    pub q4_wg: bool,
    pub q4_wu: bool,
    pub q4_wd: bool,
    pub q4_gdn_in_qkv: bool,
    pub q4_gdn_in_z: bool,
    pub q4_gdn_out: bool,
}

/// Everything but the layers that a step's operations depend on.
#[derive(Debug, Clone, Copy, PartialEq, Eq, Structural)]
pub struct Step {
    pub cfg: Config,
    /// Active rows.
    pub rows: i32,
    /// Every row is a single decode position.
    pub decode_only: bool,
    pub paged: bool,
    pub tokens_per_page: usize,
    pub max_pages_per_seq: usize,
    /// Rotary coordinates per head of the full-attention layers.
    pub rotary_dim: usize,
    pub moe_grouped: bool,
    /// Experts that fit the device; fewer than the model has means CPU offload.
    pub expert_slots: usize,
    /// Expert weights are prefetched layer by layer.
    pub prefetch: bool,
    pub profile: bool,
    pub layer_dump: bool,
    /// The expert pool lies on the device as packed int4.
    pub q4_experts: bool,
    /// Embedding and output head lie on the device as packed int4.
    pub q4_dense: bool,
}

/// The one operation if `b` holds, else nothing.
pub open spec fn opt(b: bool, op: Op) -> Seq<Op> {
    if b {
        seq![op]
    } else {
        Seq::empty()
    }
}

pub open spec fn layer_weight(layer: usize, tensor: Tensor, copy: DeviceCopy) -> Weight {
    Weight { layer: Some(layer), tensor, copy }
}

pub open spec fn model_weight(tensor: Tensor, copy: DeviceCopy) -> Weight {
    Weight { layer: None, tensor, copy }
}

/// Which form of a weight a path reads.
pub open spec fn path_copy(path: GemmPath) -> DeviceCopy {
    match path {
        GemmPath::GemvQ4 => DeviceCopy::Q4,
        GemmPath::GemvF16 => DeviceCopy::F16,
        GemmPath::BatchedF16 => DeviceCopy::F16,
        GemmPath::BatchedF32 => DeviceCopy::F32,
    }
}

impl Step {
    pub open spec fn spec_half(self) -> bool {
        self.cfg.dtype == ModelDType::F16
    }

    pub open spec fn spec_d(self) -> i32 {
        self.cfg.d_model as i32
    }

    pub open spec fn spec_nq(self) -> int {
        self.cfg.spec_nq()
    }

    pub open spec fn spec_nkv(self) -> int {
        self.cfg.spec_nkv()
    }

    pub open spec fn spec_topk(self) -> int {
        self.cfg.spec_topk()
    }

    pub open spec fn spec_conv_dim(self) -> int {
        self.cfg.spec_conv_dim()
    }

    pub open spec fn spec_shared_size(self) -> int {
        self.cfg.spec_shared_size()
    }

    /// Every width and product that the kernels take as a 32-bit integer is one.
    pub open spec fn fits(self) -> bool {
        &&& self.cfg.fits(self.rows as int)
        &&& self.tokens_per_page <= i32::MAX
        &&& self.max_pages_per_seq <= i32::MAX
        &&& self.rotary_dim <= i32::MAX
    }

    /// Small row counts take the GEMV kernel as long as it can stage a row; a packed tensor
    /// has no other form to fall back on.
    pub open spec fn gemm_path(self, q4: bool, k: int) -> GemmPath {
        if q4 {
            GemmPath::GemvQ4
        } else if !self.spec_half() {
            GemmPath::BatchedF32
        } else if self.rows <= GEMV_MAX_M && k <= GEMV_MAX_D {
            GemmPath::GemvF16
        } else {
            GemmPath::BatchedF16
        }
    }

    pub open spec fn gemm(
        self,
        out: Buf,
        x: Buf,
        layer: usize,
        tensor: Tensor,
        q4: bool,
        n: int,
        k: int,
    ) -> Op {
        let path = self.gemm_path(q4, k);
        Op::Gemm {
            path,
            out,
            x,
            w: layer_weight(layer, tensor, path_copy(path)),
            n: n as i32,
            k: k as i32,
            rows: self.rows,
        }
    }

    pub open spec fn add_residual(self, x: Buf, y: Buf) -> Op {
        Op::Add { x, y, n: (self.rows * self.cfg.d_model) as i32 }
    }

    /// RMSNorm of `x` into `y` by a layer's norm weight.
    pub open spec fn layer_norm(
        self,
        x: Buf,
        layer: usize,
        tensor: Tensor,
        y: Buf,
        cols: int,
    ) -> Op {
        Op::RmsNorm {
            x,
            w: layer_weight(layer, tensor, DeviceCopy::F32),
            y,
            rows: self.rows,
            cols: cols as i32,
        }
    }

    /// Embedding, the optional snapshot of it, and the start of the step.
    pub open spec fn head_ops(self) -> Seq<Op> {
        seq![
            Op::Embed {
                copy: if self.q4_dense {
                    DeviceCopy::Q4
                } else if self.spec_half() {
                    DeviceCopy::F16
                } else {
                    DeviceCopy::F32
                },
                cols: self.spec_d(),
                rows: self.rows,
            },
        ] + opt(self.layer_dump, Op::DumpEmbedding { rows: self.rows, d: self.spec_d() }) + opt(
            self.profile,
            Op::Record { point: ProfPoint::StepStart },
        ) + opt(self.prefetch, Op::PrefetchBegin)
    }

    /// Low-rank q, decoupled rope parts, compressed kv, and the per-head query.
    pub open spec fn mla_project_ops(self, li: usize) -> Seq<Op> {
        let c = self.cfg;
        let heads = c.n_heads as int;
        let nope = c.qk_nope_head_dim as int;
        let rope = c.qk_rope_head_dim as int;
        let kvlr = c.kv_lora_rank as int;
        let low_rank = c.q_lora_rank > 0;
        let q_k = if low_rank {
            c.q_lora_rank as int
        } else {
            c.d_model as int
        };
        let q_src = if low_rank {
            Buf::MlaQLoraN
        } else {
            Buf::Xn
        };
        (if low_rank {
            seq![
                self.gemm(Buf::MlaQLora, Buf::Xn, li, Tensor::MlaQA, false, q_k, c.d_model as int),
                self.layer_norm(Buf::MlaQLora, li, Tensor::MlaQANorm, Buf::MlaQLoraN, q_k),
            ]
        } else {
            Seq::empty()
        }) + seq![
            self.gemm(Buf::QNope, q_src, li, Tensor::MlaQB, false, heads * nope, q_k),
            self.gemm(Buf::QRope, q_src, li, Tensor::MlaQRope, false, heads * rope, q_k),
            Op::Rope {
                q: Buf::QRope,
                k: Buf::K,
                rows: self.rows,
                heads: heads as i32,
                kv_heads: heads as i32,
                dim: rope as i32,
                rot: rope as i32,
            },
            self.gemm(
                Buf::MlaKvA,
                Buf::Xn,
                li,
                Tensor::MlaKvA,
                false,
                kvlr + rope,
                c.d_model as int,
            ),
            Op::MlaExtractKvLora { rows: self.rows, rank: kvlr as i32, rope: rope as i32 },
            self.layer_norm(Buf::MlaKvLora, li, Tensor::MlaKvANorm, Buf::MlaKvAN, kvlr),
            Op::MlaExtractKRope { rows: self.rows, rank: kvlr as i32, rope: rope as i32 },
            Op::Rope {
                q: Buf::MlaKRope,
                k: Buf::V,
                rows: self.rows,
                heads: 1,
                kv_heads: 1,
                dim: rope as i32,
                rot: rope as i32,
            },
            self.gemm(
                Buf::MlaKv,
                Buf::MlaKvAN,
                li,
                Tensor::MlaKvB,
                false,
                heads * (nope + c.v_head_dim),
                kvlr,
            ),
            Op::MlaAssembleQ {
                rows: self.rows,
                heads: heads as i32,
                nope: nope as i32,
                rope: rope as i32,
            },
        ]
    }

    /// Store and attention over the per-head caches, the output projection, the residual.
    pub open spec fn mla_attend_ops(self, li: usize) -> Seq<Op> {
        let c = self.cfg;
        let heads = c.n_heads as i32;
        let nope = c.qk_nope_head_dim as i32;
        let rope = c.qk_rope_head_dim as i32;
        let v_dim = c.v_head_dim as i32;
        let max_seq = c.max_seq_len as i32;
        let rows = self.rows;
        (if self.paged {
            seq![
                Op::MlaStorePaged {
                    layer: li,
                    rows,
                    heads,
                    nope,
                    rope,
                    v_dim,
                    tokens_per_page: self.tokens_per_page as i32,
                },
                Op::MlaAttnPaged {
                    layer: li,
                    rows,
                    heads,
                    nope,
                    rope,
                    v_dim,
                    tokens_per_page: self.tokens_per_page as i32,
                    max_pages: self.max_pages_per_seq as i32,
                },
            ]
        } else {
            seq![
                Op::MlaStore { layer: li, rows, max_seq, heads, nope, rope, v_dim },
                Op::MlaAttn {
                    layer: li,
                    rows,
                    heads,
                    k_dim: (c.qk_nope_head_dim + c.qk_rope_head_dim) as i32,
                    v_dim,
                    max_seq,
                },
            ]
        }) + seq![
            self.gemm(
                Buf::Proj,
                Buf::MlaAttn,
                li,
                Tensor::MlaO,
                false,
                c.d_model as int,
                c.n_heads * c.v_head_dim,
            ),
            self.add_residual(Buf::X, Buf::Proj),
        ]
    }

    /// A linear-attention layer: projections, causal conv, recurrence, gated norm, output.
    pub open spec fn gdn_ops(self, li: usize, l: LayerDev) -> Seq<Op> {
        let c = self.cfg;
        let d = c.d_model as int;
        let vd = c.spec_gdn_value_dim();
        let rows = self.rows;
        let conv_dim = self.spec_conv_dim() as i32;
        let k_heads = c.gdn_k_heads as i32;
        let v_heads = c.gdn_v_heads as i32;
        let dim = c.gdn_head_dim as i32;
        seq![
            self.gemm(
                Buf::GdnQkvPre,
                Buf::Xn,
                li,
                Tensor::GdnInQkv,
                l.q4_gdn_in_qkv,
                self.spec_conv_dim(),
                d,
            ),
            self.gemm(Buf::GdnZ, Buf::Xn, li, Tensor::GdnInZ, l.q4_gdn_in_z, vd, d),
            self.gemm(Buf::GdnA, Buf::Xn, li, Tensor::GdnInA, false, c.gdn_v_heads as int, d),
            self.gemm(Buf::GdnB, Buf::Xn, li, Tensor::GdnInB, false, c.gdn_v_heads as int, d),
            Op::GdnConvUpdate {
                layer: li,
                rows,
                conv_dim,
                keep: (c.gdn_conv_kernel - 1) as i32,
            },
            Op::GdnL2NormQk { rows, k_heads, dim, conv_dim },
            Op::GdnStep { layer: li, rows, v_heads, k_heads, dim, conv_dim },
            Op::GdnGatedNorm { layer: li, rows, v_heads, dim },
            self.gemm(Buf::Proj, Buf::GdnO, li, Tensor::GdnOut, l.q4_gdn_out, d, vd),
            self.add_residual(Buf::X, Buf::Proj),
        ]
    }

    /// The fused q/k/v GEMV serves few rows, from fp16 weights, as long as it can stage a row.
    pub open spec fn fused_qkv(self, l: LayerDev) -> bool {
        self.spec_half() && self.rows <= GEMV_MAX_M && self.cfg.d_model <= GEMV_MAX_D && !l.q4_wq
    }

    /// The q/k/v projections of a full-attention layer.
    pub open spec fn qkv_ops(self, li: usize, l: LayerDev) -> Seq<Op> {
        let c = self.cfg;
        let d = c.d_model as int;
        let gate = c.attn_output_gate;
        let q_out = if gate {
            Buf::Qg
        } else {
            Buf::Q
        };
        let nq_rows = if gate {
            2 * self.spec_nq()
        } else {
            self.spec_nq()
        };
        if self.fused_qkv(l) {
            seq![
                Op::GemvF16Qkv {
                    layer: li,
                    q: q_out,
                    nq: nq_rows as i32,
                    nkv: self.spec_nkv() as i32,
                    k: self.spec_d(),
                    rows: self.rows,
                },
            ]
        } else {
            seq![
                self.gemm(q_out, Buf::Xn, li, Tensor::Wq, l.q4_wq, nq_rows, d),
                self.gemm(Buf::K, Buf::Xn, li, Tensor::Wk, l.q4_wk, self.spec_nkv(), d),
                self.gemm(Buf::V, Buf::Xn, li, Tensor::Wv, l.q4_wv, self.spec_nkv(), d),
            ]
        }
    }

    /// Gate split, biases, per-head norms and rotation of a full-attention layer.
    pub open spec fn rotate_ops(self, li: usize, l: LayerDev) -> Seq<Op> {
        let c = self.cfg;
        let rows = self.rows;
        let heads = c.n_heads as i32;
        let kv_heads = c.n_kv_heads as i32;
        let dim = c.head_dim as i32;
        opt(c.attn_output_gate, Op::QgSplit { rows, heads, dim }) + opt(
            l.has_bq,
            Op::AddBias {
                x: Buf::Q,
                bias: layer_weight(li, Tensor::Bq, DeviceCopy::F32),
                rows,
                cols: self.spec_nq() as i32,
            },
        ) + opt(
            l.has_bk,
            Op::AddBias {
                x: Buf::K,
                bias: layer_weight(li, Tensor::Bk, DeviceCopy::F32),
                rows,
                cols: self.spec_nkv() as i32,
            },
        ) + opt(
            l.has_bv,
            Op::AddBias {
                x: Buf::V,
                bias: layer_weight(li, Tensor::Bv, DeviceCopy::F32),
                rows,
                cols: self.spec_nkv() as i32,
            },
        ) + opt(l.has_q_norm, Op::QkNorm { layer: li, rows, heads, kv_heads, dim }) + seq![
            Op::Rope {
                q: Buf::Q,
                k: Buf::K,
                rows,
                heads,
                kv_heads,
                dim,
                rot: self.rotary_dim as i32,
            },
        ]
    }

    /// Prefill attention of the detected runs.
    pub open spec fn run_ops(self, li: usize, runs: Seq<Run>) -> Seq<Op> {
        Seq::new(
            runs.len(),
            |i: int|
                Op::AttnPrefillF16 {
                    k: Buf::KCache(li),
                    v: Buf::VCache(li),
                    run: runs[i],
                    heads: self.cfg.n_heads as i32,
                    kv_heads: self.cfg.n_kv_heads as i32,
                    dim: self.cfg.head_dim as i32,
                    max_seq: self.cfg.max_seq_len as i32,
                },
        )
    }

    /// Store and attention of a full-attention layer.
    pub open spec fn attend_ops(self, li: usize, runs: Seq<Run>) -> Seq<Op> {
        let c = self.cfg;
        let half = self.spec_half();
        let rows = self.rows;
        let heads = c.n_heads as i32;
        let kv_heads = c.n_kv_heads as i32;
        let dim = c.head_dim as i32;
        let max_seq = c.max_seq_len as i32;
        let tokens_per_page = self.tokens_per_page as i32;
        let k = Buf::KCache(li);
        let v = Buf::VCache(li);
        if self.paged {
            seq![
                Op::KvStorePaged {
                    half,
                    kv: Buf::K,
                    cache: k,
                    rows,
                    kv_heads,
                    dim,
                    tokens_per_page,
                },
                Op::KvStorePaged {
                    half,
                    kv: Buf::V,
                    cache: v,
                    rows,
                    kv_heads,
                    dim,
                    tokens_per_page,
                },
                Op::AttnPaged {
                    half,
                    k,
                    v,
                    rows,
                    heads,
                    kv_heads,
                    dim,
                    tokens_per_page,
                    max_pages: self.max_pages_per_seq as i32,
                },
            ]
        } else {
            seq![
                Op::KvStore { half, kv: Buf::K, cache: k, rows, kv_heads, dim, max_seq },
                Op::KvStore { half, kv: Buf::V, cache: v, rows, kv_heads, dim, max_seq },
                Op::AttnBatched { half, k, v, rows, heads, kv_heads, dim, max_seq },
            ] + if half {
                self.run_ops(li, runs)
            } else {
                Seq::empty()
            }
        }
    }

    /// Output gate, output projection and residual of a full-attention layer.
    pub open spec fn attn_out_ops(self, li: usize, l: LayerDev) -> Seq<Op> {
        opt(
            self.cfg.attn_output_gate,
            Op::AttnGateApply { n: (self.rows * self.spec_nq()) as i32 },
        ) + seq![
            self.gemm(
                Buf::Proj,
                Buf::Attn,
                li,
                Tensor::Wo,
                l.q4_wo,
                self.cfg.d_model as int,
                self.spec_nq(),
            ),
            self.add_residual(Buf::X, Buf::Proj),
        ]
    }

    /// The attention half of a layer.
    pub open spec fn attention_ops(self, li: usize, l: LayerDev, runs: Seq<Run>) -> Seq<Op> {
        if self.cfg.kv_lora_rank > 0 {
            self.mla_project_ops(li) + self.mla_attend_ops(li)
        } else if l.has_gdn {
            self.gdn_ops(li, l)
        } else {
            self.qkv_ops(li, l) + self.rotate_ops(li, l) + self.attend_ops(li, runs)
                + self.attn_out_ops(li, l)
        }
    }

    /// The grouped device kernels compute the experts: decode steps when so configured, and
    /// every step when the pool exists only in packed form.
    pub open spec fn grouped(self) -> bool {
        (self.moe_grouped && self.decode_only) || self.q4_experts
    }

    /// The experts do not fit the device and are not prefetched either.
    pub open spec fn offloaded(self) -> bool {
        !self.prefetch && self.expert_slots < self.cfg.num_experts
    }

    pub open spec fn expert_source(self) -> ExpertSource {
        if self.spec_half() {
            ExpertSource::F16
        } else if self.prefetch {
            ExpertSource::Prefetched
        } else {
            ExpertSource::Resident
        }
    }

    /// Grouped kernels over all routed rows.
    pub open spec fn grouped_ops(self, li: usize) -> Seq<Op> {
        let routed = self.rows * self.spec_topk();
        let rows = routed as i32;
        let inter = self.cfg.spec_expert_size() as i32;
        let d = self.spec_d();
        let topk = self.spec_topk() as i32;
        let source = if self.q4_experts {
            ExpertSource::Q4
        } else {
            self.expert_source()
        };
        seq![
            Op::MoeGroupedGateUp { layer: li, source, rows, inter, d, topk },
            Op::SiluMul {
                up: Buf::UpAll,
                gate: Buf::GateAll,
                out: Buf::EhAll,
                n: (routed * self.cfg.spec_expert_size()) as i32,
            },
            Op::MoeGroupedDown { layer: li, source, rows, d, inter },
            Op::MoeScatterAll { rows: self.rows, topk, d },
        ]
    }

    /// Expert-major prelude and the per-expert GEMMs driven by the host.
    pub open spec fn segmented_ops(self, li: usize) -> Seq<Op> {
        let ne = self.cfg.num_experts as i32;
        let topk = self.spec_topk() as i32;
        let d = self.spec_d();
        let rows = self.rows;
        let count_bytes = (self.cfg.num_experts * 4) as usize;
        seq![
            Op::Memset { buf: Buf::CountsDev, bytes: count_bytes },
            Op::Memset { buf: Buf::MoePosDev, bytes: count_bytes },
            Op::MoeCountExperts { rows, topk },
            Op::MoePrefixSum { experts: ne },
            Op::MoeGatherRows { rows, topk, d },
            Op::MoeReadCounts { experts: ne },
            Op::Memset { buf: Buf::HAcc, bytes: (rows * self.cfg.d_model * 4) as usize },
            Op::MoeHostExperts { layer: li, source: self.expert_source() },
        ]
    }

    /// The always-active experts, added to the routed sum.
    pub open spec fn shared_ops(self, li: usize) -> Seq<Op> {
        let d = self.cfg.d_model as int;
        let w = self.spec_shared_size();
        seq![
            self.gemm(Buf::Gate, Buf::Xn2, li, Tensor::SharedWg, false, w, d),
            self.gemm(Buf::Up, Buf::Xn2, li, Tensor::SharedWu, false, w, d),
            Op::SiluMul { up: Buf::Up, gate: Buf::Gate, out: Buf::H, n: (self.rows * w) as i32 },
            self.gemm(Buf::Proj, Buf::H, li, Tensor::SharedWd, false, d, w),
            self.add_residual(Buf::HAcc, Buf::Proj),
        ]
    }

    /// Routing, experts, shared experts and residual of an MoE layer. With no active expert
    /// the layer contributes nothing.
    pub open spec fn moe_ops(self, li: usize, l: LayerDev) -> Seq<Op> {
        let c = self.cfg;
        let topk = self.spec_topk() as i32;
        if topk == 0 {
            Seq::empty()
        } else {
            seq![
                self.gemm(
                    Buf::Router,
                    Buf::Xn2,
                    li,
                    Tensor::MoeRouter,
                    false,
                    c.num_experts as int,
                    c.d_model as int,
                ),
                Op::MoeRouter {
                    experts: c.num_experts as i32,
                    topk,
                    rows: self.rows,
                    norm_topk: c.moe_norm_topk,
                    scale: c.moe_routed_scale,
                },
            ] + if self.offloaded() {
                seq![
                    Op::MoeCpu {
                        layer: li,
                        topk,
                        rows: self.rows,
                        d: self.spec_d(),
                        inter: c.spec_expert_size() as i32,
                    },
                ]
            } else {
                opt(self.prefetch, Op::PrefetchReady { layer: li }) + (if self.grouped() {
                    self.grouped_ops(li)
                } else {
                    self.segmented_ops(li)
                }) + (if l.has_shared {
                    self.shared_ops(li)
                } else {
                    Seq::empty()
                }) + seq![self.add_residual(Buf::X, Buf::HAcc)]
            }
        }
    }

    /// The dense MLP of a layer.
    pub open spec fn mlp_ops(self, li: usize, l: LayerDev) -> Seq<Op> {
        let d = self.cfg.d_model as int;
        let w = self.cfg.intermediate_size as int;
        seq![
            self.gemm(Buf::Gate, Buf::Xn2, li, Tensor::Wg, l.q4_wg, w, d),
            self.gemm(Buf::Up, Buf::Xn2, li, Tensor::Wu, l.q4_wu, w, d),
            Op::SiluMul { up: Buf::Up, gate: Buf::Gate, out: Buf::H, n: (self.rows * w) as i32 },
            self.gemm(Buf::Proj, Buf::H, li, Tensor::Wd, l.q4_wd, d, w),
            self.add_residual(Buf::X, Buf::Proj),
        ]
    }

    /// The layer routes to experts.
    pub open spec fn is_moe(self, l: LayerDev) -> bool {
        self.cfg.num_experts > 0 && l.has_router
    }

    /// Index of the last active row.
    pub open spec fn last_row(self) -> int {
        if self.rows > 0 {
            self.rows - 1
        } else {
            0
        }
    }

    /// One traced intermediate: `width` elements of the last row.
    pub open spec fn trace(self, label: MoeTrace, buf: Buf, width: int) -> Op {
        Op::DumpMoe {
            label,
            buf,
            offset: (self.last_row() * width) as usize,
            len: width as usize,
        }
    }

    /// The intermediates of the traced layer, which only the grouped device path leaves in
    /// token order.
    pub open spec fn trace_ops(self, l: LayerDev) -> Seq<Op> {
        let d = self.cfg.d_model as int;
        let w = self.spec_topk() * self.cfg.spec_expert_size();
        let sw = self.spec_shared_size();
        seq![
            self.trace(MoeTrace::Router, Buf::Router, self.cfg.num_experts as int),
            self.trace(MoeTrace::Xn2, Buf::Xn2, d),
            self.trace(MoeTrace::GateAll, Buf::GateAll, w),
            self.trace(MoeTrace::UpAll, Buf::UpAll, w),
            self.trace(MoeTrace::EhAll, Buf::EhAll, w),
            self.trace(MoeTrace::DownAll, Buf::DownAll, self.spec_topk() * d),
            self.trace(MoeTrace::HAcc, Buf::HAcc, d),
        ] + if l.has_shared {
            seq![
                self.trace(MoeTrace::SharedGate, Buf::Gate, sw),
                self.trace(MoeTrace::SharedUp, Buf::Up, sw),
                self.trace(MoeTrace::SharedH, Buf::H, sw),
                self.trace(MoeTrace::SharedProj, Buf::Proj, d),
            ]
        } else {
            Seq::empty()
        }
    }

    /// Snapshots after a layer, when a dump is armed.
    pub open spec fn dump_ops(self, li: usize, l: LayerDev) -> Seq<Op> {
        let topk = self.spec_topk();
        if !self.layer_dump {
            Seq::empty()
        } else {
            seq![Op::DumpLayer { layer: li, rows: self.rows, d: self.spec_d() }] + opt(
                self.is_moe(l) && topk > 0,
                Op::DumpRouting {
                    layer: li,
                    offset: (self.last_row() * topk) as usize,
                    topk: topk as usize,
                },
            ) + if li == 1 && self.is_moe(l) && topk > 0 && self.grouped() && !self.offloaded() {
                self.trace_ops(l)
            } else {
                Seq::empty()
            }
        }
    }

    /// The profiler brackets layer `li`.
    pub open spec fn profiled(self, li: usize) -> bool {
        self.profile && li < self.cfg.n_layers
    }

    /// The first half of a layer, up to the attention residual.
    pub open spec fn first_half_ops(self, li: usize, l: LayerDev, runs: Seq<Run>) -> Seq<Op> {
        opt(self.profiled(li), Op::Record { point: ProfPoint::LayerStart(li) }) + opt(
            self.prefetch,
            Op::PrefetchLayerBegin { layer: li },
        ) + seq![
            self.layer_norm(Buf::X, li, Tensor::RmsAttn, Buf::Xn, self.cfg.d_model as int),
        ] + self.attention_ops(li, l, runs) + opt(
            self.profiled(li),
            Op::Record { point: ProfPoint::AttnDone(li) },
        ) + opt(
            self.layer_dump,
            Op::DumpMid { layer: li, rows: self.rows, d: self.spec_d() },
        )
    }

    /// The second half of a layer: MLP or experts.
    pub open spec fn second_half_ops(self, li: usize, l: LayerDev) -> Seq<Op> {
        seq![
            self.layer_norm(Buf::X, li, Tensor::RmsMlp, Buf::Xn2, self.cfg.d_model as int),
        ] + (if self.is_moe(l) {
            self.moe_ops(li, l)
        } else {
            self.mlp_ops(li, l)
        }) + self.dump_ops(li, l) + opt(
            self.profiled(li),
            Op::Record { point: ProfPoint::MlpDone(li) },
        ) + opt(self.prefetch, Op::PrefetchLayerEnd { layer: li })
    }

    /// Everything one layer issues.
    pub open spec fn layer_ops(self, li: usize, l: LayerDev, runs: Seq<Run>) -> Seq<Op> {
        self.first_half_ops(li, l, runs) + self.second_half_ops(li, l)
    }

    /// The first `n` layers.
    pub open spec fn layers_ops(self, layers: Seq<LayerDev>, runs: Seq<Run>, n: nat) -> Seq<Op>
        decreases n,
    {
        if n == 0 {
            Seq::empty()
        } else {
            self.layers_ops(layers, runs, (n - 1) as nat) + self.layer_ops(
                (n - 1) as usize,
                layers[n - 1],
                runs,
            )
        }
    }

    /// Final norm, output head and the end of the step.
    pub open spec fn tail_ops(self) -> Seq<Op> {
        let path = self.gemm_path(self.q4_dense, self.cfg.d_model as int);
        seq![
            Op::RmsNorm {
                x: Buf::X,
                w: model_weight(Tensor::RmsFinal, DeviceCopy::F32),
                y: Buf::Xn,
                rows: self.rows,
                cols: self.spec_d(),
            },
            Op::Gemm {
                path,
                out: Buf::Logits,
                x: Buf::Xn,
                w: model_weight(Tensor::LmHead, path_copy(path)),
                n: self.cfg.vocab_size as i32,
                k: self.spec_d(),
                rows: self.rows,
            },
        ] + opt(self.profile, Op::Record { point: ProfPoint::StepEnd })
    }

    /// Everything a step issues.
    pub open spec fn forward_ops(self, layers: Seq<LayerDev>, runs: Seq<Run>) -> Seq<Op> {
        self.head_ops() + self.layers_ops(layers, runs, layers.len()) + self.tail_ops()
    }
}

proof fn lemma_mul_le(a: int, b: int, c: int)
    requires
        0 <= a,
        b <= c,
    ensures
        a * b <= a * c,
{
    assert(a * b <= a * c) by (nonlinear_arith)
        requires
            0 <= a,
            b <= c,
    ;
}

proof fn lemma_mul_nonneg(a: int, b: int)
    requires
        0 <= a,
        0 <= b,
    ensures
        0 <= a * b,
{
    assert(0 <= a * b) by (nonlinear_arith)
        requires
            0 <= a,
            0 <= b,
    ;
}

impl Step {
    /// Products that the bounds on larger products imply.
    pub proof fn lemma_fits(self)
        requires
            self.fits(),
        ensures
            0 <= self.spec_nq(),
            0 <= self.spec_nkv(),
            0 <= self.cfg.n_heads * self.cfg.qk_nope_head_dim <= i32::MAX,
            0 <= self.cfg.n_heads * self.cfg.qk_rope_head_dim <= i32::MAX,
            0 <= self.cfg.n_heads * self.cfg.v_head_dim <= i32::MAX,
            0 <= self.cfg.n_heads * (self.cfg.qk_nope_head_dim + self.cfg.v_head_dim),
            0 <= self.cfg.spec_gdn_key_dim() <= i32::MAX,
            0 <= self.cfg.spec_gdn_value_dim() <= i32::MAX,
            0 <= self.spec_conv_dim(),
            0 <= self.spec_shared_size(),
            0 <= self.spec_topk() <= i32::MAX,
            0 <= self.rows * self.cfg.d_model,
            0 <= self.rows * self.spec_nq(),
            0 <= self.rows * self.cfg.intermediate_size,
            0 <= self.rows * self.spec_shared_size(),
            0 <= self.rows * self.spec_topk(),
            0 <= self.rows * self.spec_topk() * self.cfg.spec_expert_size(),
    {
        let c = self.cfg;
        let h = c.n_heads as int;
        let nope = c.qk_nope_head_dim as int;
        let rope = c.qk_rope_head_dim as int;
        let v = c.v_head_dim as int;
        lemma_mul_le(h, nope, nope + rope);
        lemma_mul_le(h, rope, nope + rope);
        lemma_mul_le(h, v, nope + v);
        lemma_mul_nonneg(h, nope);
        lemma_mul_nonneg(h, rope);
        lemma_mul_nonneg(h, v);
        lemma_mul_nonneg(h, nope + v);
        lemma_mul_nonneg(h, c.head_dim as int);
        lemma_mul_nonneg(c.n_kv_heads as int, c.head_dim as int);
        lemma_mul_nonneg(c.gdn_k_heads as int, c.gdn_head_dim as int);
        lemma_mul_nonneg(c.gdn_v_heads as int, c.gdn_head_dim as int);
        lemma_mul_nonneg(c.n_shared_experts as int, c.spec_expert_size() as int);
        lemma_mul_nonneg(self.rows as int, c.d_model as int);
        lemma_mul_nonneg(self.rows as int, self.spec_nq());
        lemma_mul_nonneg(self.rows as int, c.intermediate_size as int);
        lemma_mul_nonneg(self.rows as int, self.spec_shared_size());
        lemma_mul_nonneg(self.rows as int, self.spec_topk());
        lemma_mul_nonneg(self.rows * self.spec_topk(), c.spec_expert_size() as int);
    }

    fn half(&self) -> (b: bool)
        ensures
            b == self.spec_half(),
    {
        self.cfg.dtype == ModelDType::F16
    }

    /// Query width of all heads.
    fn nq(&self) -> (n: usize)
        requires
            self.fits(),
        ensures
            n == self.spec_nq(),
    {
        self.cfg.n_heads * self.cfg.head_dim
    }

    /// Key or value width of all KV heads.
    fn nkv(&self) -> (n: usize)
        requires
            self.fits(),
        ensures
            n == self.spec_nkv(),
    {
        self.cfg.n_kv_heads * self.cfg.head_dim
    }

    fn topk(&self) -> (n: usize)
        ensures
            n == self.spec_topk(),
    {
        if self.cfg.num_experts_per_tok < self.cfg.num_experts {
            self.cfg.num_experts_per_tok
        } else {
            self.cfg.num_experts
        }
    }

    fn conv_dim(&self) -> (n: usize)
        requires
            self.fits(),
        ensures
            n == self.spec_conv_dim(),
    {
        proof {
            self.lemma_fits();
        }
        2 * self.cfg.gdn_key_dim() + self.cfg.gdn_value_dim()
    }

    /// The way a projection over `k` is computed.
    fn select_gemm(&self, q4: bool, k: usize) -> (path: GemmPath)
        requires
            k <= i32::MAX,
        ensures
            path == self.gemm_path(q4, k as int),
    {
        if q4 {
            GemmPath::GemvQ4
        } else if !self.half() {
            GemmPath::BatchedF32
        } else if self.rows <= GEMV_MAX_M && k as i32 <= GEMV_MAX_D {
            GemmPath::GemvF16
        } else {
            GemmPath::BatchedF16
        }
    }

    fn copy_for(path: GemmPath) -> (copy: DeviceCopy)
        ensures
            copy == path_copy(path),
    {
        match path {
            GemmPath::GemvQ4 => DeviceCopy::Q4,
            GemmPath::GemvF16 => DeviceCopy::F16,
            GemmPath::BatchedF16 => DeviceCopy::F16,
            GemmPath::BatchedF32 => DeviceCopy::F32,
        }
    }

    fn plan_gemm(
        &self,
        out: Buf,
        x: Buf,
        layer: usize,
        tensor: Tensor,
        q4: bool,
        n: usize,
        k: usize,
    ) -> (op: Op)
        requires
            n <= i32::MAX,
            k <= i32::MAX,
        ensures
            op == self.gemm(out, x, layer, tensor, q4, n as int, k as int),
    {
        let path = self.select_gemm(q4, k);
        Op::Gemm {
            path,
            out,
            x,
            w: Weight { layer: Some(layer), tensor, copy: Step::copy_for(path) },
            n: n as i32,
            k: k as i32,
            rows: self.rows,
        }
    }

    fn plan_norm(&self, x: Buf, layer: usize, tensor: Tensor, y: Buf, cols: usize) -> (op: Op)
        requires
            cols <= i32::MAX,
        ensures
            op == self.layer_norm(x, layer, tensor, y, cols as int),
    {
        Op::RmsNorm {
            x,
            w: Weight { layer: Some(layer), tensor, copy: DeviceCopy::F32 },
            y,
            rows: self.rows,
            cols: cols as i32,
        }
    }

    fn plan_add(&self, x: Buf, y: Buf) -> (op: Op)
        requires
            self.fits(),
        ensures
            op == self.add_residual(x, y),
    {
        proof {
            self.lemma_fits();
        }
        Op::Add { x, y, n: (self.rows as usize * self.cfg.d_model) as i32 }
    }

    fn push_head(&self, ops: &mut Vec<Op>)
        requires
            self.fits(),
        ensures
            final(ops)@ == old(ops)@ + self.head_ops(),
    {
        let copy = if self.q4_dense {
            DeviceCopy::Q4
        } else if self.half() {
            DeviceCopy::F16
        } else {
            DeviceCopy::F32
        };
        let d: i32 = self.cfg.d_model as i32;
        ops.push(Op::Embed { copy, cols: d, rows: self.rows });
        if self.layer_dump {
            ops.push(Op::DumpEmbedding { rows: self.rows, d });
        }
        if self.profile {
            ops.push(Op::Record { point: ProfPoint::StepStart });
        }
        if self.prefetch {
            ops.push(Op::PrefetchBegin);
        }
        assert(ops@ =~= old(ops)@ + self.head_ops());
    }

    fn push_mla_project(&self, li: usize, ops: &mut Vec<Op>)
        requires
            self.fits(),
        ensures
            final(ops)@ == old(ops)@ + self.mla_project_ops(li),
    {
        proof {
            self.lemma_fits();
        }
        let c = self.cfg;
        let rows: i32 = self.rows;
        let heads: usize = c.n_heads;
        let rope: usize = c.qk_rope_head_dim;
        let kvlr: usize = c.kv_lora_rank;
        let low_rank: bool = c.q_lora_rank > 0;
        let q_k: usize = if low_rank {
            c.q_lora_rank
        } else {
            c.d_model
        };
        let q_src = if low_rank {
            Buf::MlaQLoraN
        } else {
            Buf::Xn
        };
        if low_rank {
            ops.push(
                self.plan_gemm(Buf::MlaQLora, Buf::Xn, li, Tensor::MlaQA, false, q_k, c.d_model),
            );
            ops.push(self.plan_norm(Buf::MlaQLora, li, Tensor::MlaQANorm, Buf::MlaQLoraN, q_k));
        }
        ops.push(
            self.plan_gemm(
                Buf::QNope,
                q_src,
                li,
                Tensor::MlaQB,
                false,
                heads * c.qk_nope_head_dim,
                q_k,
            ),
        );
        ops.push(
            self.plan_gemm(Buf::QRope, q_src, li, Tensor::MlaQRope, false, heads * rope, q_k),
        );
        ops.push(
            Op::Rope {
                q: Buf::QRope,
                k: Buf::K,
                rows,
                heads: heads as i32,
                kv_heads: heads as i32,
                dim: rope as i32,
                rot: rope as i32,
            },
        );
        ops.push(
            self.plan_gemm(
                Buf::MlaKvA,
                Buf::Xn,
                li,
                Tensor::MlaKvA,
                false,
                kvlr + rope,
                c.d_model,
            ),
        );
        ops.push(Op::MlaExtractKvLora { rows, rank: kvlr as i32, rope: rope as i32 });
        ops.push(self.plan_norm(Buf::MlaKvLora, li, Tensor::MlaKvANorm, Buf::MlaKvAN, kvlr));
        ops.push(Op::MlaExtractKRope { rows, rank: kvlr as i32, rope: rope as i32 });
        ops.push(
            Op::Rope {
                q: Buf::MlaKRope,
                k: Buf::V,
                rows,
                heads: 1,
                kv_heads: 1,
                dim: rope as i32,
                rot: rope as i32,
            },
        );
        ops.push(
            self.plan_gemm(
                Buf::MlaKv,
                Buf::MlaKvAN,
                li,
                Tensor::MlaKvB,
                false,
                heads * (c.qk_nope_head_dim + c.v_head_dim),
                kvlr,
            ),
        );
        ops.push(
            Op::MlaAssembleQ {
                rows,
                heads: heads as i32,
                nope: c.qk_nope_head_dim as i32,
                rope: rope as i32,
            },
        );
        assert(ops@ =~= old(ops)@ + self.mla_project_ops(li));
    }

    fn push_mla_attend(&self, li: usize, ops: &mut Vec<Op>)
        requires
            self.fits(),
        ensures
            final(ops)@ == old(ops)@ + self.mla_attend_ops(li),
    {
        proof {
            self.lemma_fits();
        }
        let c = self.cfg;
        let rows: i32 = self.rows;
        let heads: i32 = c.n_heads as i32;
        let nope: i32 = c.qk_nope_head_dim as i32;
        let rope: i32 = c.qk_rope_head_dim as i32;
        let v_dim: i32 = c.v_head_dim as i32;
        let max_seq: i32 = c.max_seq_len as i32;
        if self.paged {
            let tokens_per_page: i32 = self.tokens_per_page as i32;
            ops.push(
                Op::MlaStorePaged { layer: li, rows, heads, nope, rope, v_dim, tokens_per_page },
            );
            ops.push(
                Op::MlaAttnPaged {
                    layer: li,
                    rows,
                    heads,
                    nope,
                    rope,
                    v_dim,
                    tokens_per_page,
                    max_pages: self.max_pages_per_seq as i32,
                },
            );
        } else {
            ops.push(Op::MlaStore { layer: li, rows, max_seq, heads, nope, rope, v_dim });
            ops.push(
                Op::MlaAttn { layer: li, rows, heads, k_dim: nope + rope, v_dim, max_seq },
            );
        }
        ops.push(
            self.plan_gemm(
                Buf::Proj,
                Buf::MlaAttn,
                li,
                Tensor::MlaO,
                false,
                c.d_model,
                c.n_heads * c.v_head_dim,
            ),
        );
        ops.push(self.plan_add(Buf::X, Buf::Proj));
        assert(ops@ =~= old(ops)@ + self.mla_attend_ops(li));
    }

    fn push_gdn(&self, li: usize, l: &LayerDev, ops: &mut Vec<Op>)
        requires
            self.fits(),
        ensures
            final(ops)@ == old(ops)@ + self.gdn_ops(li, *l),
    {
        proof {
            self.lemma_fits();
        }
        let c = self.cfg;
        let d: usize = c.d_model;
        let rows: i32 = self.rows;
        let vd: usize = c.gdn_value_dim();
        let width: usize = self.conv_dim();
        let conv_dim: i32 = width as i32;
        let k_heads: i32 = c.gdn_k_heads as i32;
        let v_heads: i32 = c.gdn_v_heads as i32;
        let dim: i32 = c.gdn_head_dim as i32;
        ops.push(
            self.plan_gemm(
                Buf::GdnQkvPre,
                Buf::Xn,
                li,
                Tensor::GdnInQkv,
                l.q4_gdn_in_qkv,
                width,
                d,
            ),
        );
        ops.push(self.plan_gemm(Buf::GdnZ, Buf::Xn, li, Tensor::GdnInZ, l.q4_gdn_in_z, vd, d));
        ops.push(
            self.plan_gemm(Buf::GdnA, Buf::Xn, li, Tensor::GdnInA, false, c.gdn_v_heads, d),
        );
        ops.push(
            self.plan_gemm(Buf::GdnB, Buf::Xn, li, Tensor::GdnInB, false, c.gdn_v_heads, d),
        );
        ops.push(
            Op::GdnConvUpdate { layer: li, rows, conv_dim, keep: c.gdn_conv_kernel as i32 - 1 },
        );
        ops.push(Op::GdnL2NormQk { rows, k_heads, dim, conv_dim });
        ops.push(Op::GdnStep { layer: li, rows, v_heads, k_heads, dim, conv_dim });
        ops.push(Op::GdnGatedNorm { layer: li, rows, v_heads, dim });
        ops.push(self.plan_gemm(Buf::Proj, Buf::GdnO, li, Tensor::GdnOut, l.q4_gdn_out, d, vd));
        ops.push(self.plan_add(Buf::X, Buf::Proj));
        assert(ops@ =~= old(ops)@ + self.gdn_ops(li, *l));
    }

    fn push_qkv(&self, li: usize, l: &LayerDev, ops: &mut Vec<Op>)
        requires
            self.fits(),
        ensures
            final(ops)@ == old(ops)@ + self.qkv_ops(li, *l),
    {
        proof {
            self.lemma_fits();
        }
        let c = self.cfg;
        let d: usize = c.d_model;
        let gate: bool = c.attn_output_gate;
        let q_out = if gate {
            Buf::Qg
        } else {
            Buf::Q
        };
        let nq: usize = self.nq();
        let nkv: usize = self.nkv();
        let nq_rows: usize = if gate {
            2 * nq
        } else {
            nq
        };
        let rows: i32 = self.rows;
        if self.half() && rows <= GEMV_MAX_M && d as i32 <= GEMV_MAX_D && !l.q4_wq {
            ops.push(
                Op::GemvF16Qkv {
                    layer: li,
                    q: q_out,
                    nq: nq_rows as i32,
                    nkv: nkv as i32,
                    k: d as i32,
                    rows,
                },
            );
        } else {
            ops.push(self.plan_gemm(q_out, Buf::Xn, li, Tensor::Wq, l.q4_wq, nq_rows, d));
            ops.push(self.plan_gemm(Buf::K, Buf::Xn, li, Tensor::Wk, l.q4_wk, nkv, d));
            ops.push(self.plan_gemm(Buf::V, Buf::Xn, li, Tensor::Wv, l.q4_wv, nkv, d));
        }
        assert(ops@ =~= old(ops)@ + self.qkv_ops(li, *l));
    }

    fn push_rotate(&self, li: usize, l: &LayerDev, ops: &mut Vec<Op>)
        requires
            self.fits(),
        ensures
            final(ops)@ == old(ops)@ + self.rotate_ops(li, *l),
    {
        proof {
            self.lemma_fits();
        }
        let c = self.cfg;
        let nq: usize = self.nq();
        let nkv: usize = self.nkv();
        let rows: i32 = self.rows;
        let heads: i32 = c.n_heads as i32;
        let kv_heads: i32 = c.n_kv_heads as i32;
        let dim: i32 = c.head_dim as i32;
        if c.attn_output_gate {
            ops.push(Op::QgSplit { rows, heads, dim });
        }
        if l.has_bq {
            let bias = Weight { layer: Some(li), tensor: Tensor::Bq, copy: DeviceCopy::F32 };
            ops.push(Op::AddBias { x: Buf::Q, bias, rows, cols: nq as i32 });
        }
        if l.has_bk {
            let bias = Weight { layer: Some(li), tensor: Tensor::Bk, copy: DeviceCopy::F32 };
            ops.push(Op::AddBias { x: Buf::K, bias, rows, cols: nkv as i32 });
        }
        if l.has_bv {
            let bias = Weight { layer: Some(li), tensor: Tensor::Bv, copy: DeviceCopy::F32 };
            ops.push(Op::AddBias { x: Buf::V, bias, rows, cols: nkv as i32 });
        }
        if l.has_q_norm {
            ops.push(Op::QkNorm { layer: li, rows, heads, kv_heads, dim });
        }
        ops.push(
            Op::Rope {
                q: Buf::Q,
                k: Buf::K,
                rows,
                heads,
                kv_heads,
                dim,
                rot: self.rotary_dim as i32,
            },
        );
        assert(ops@ =~= old(ops)@ + self.rotate_ops(li, *l));
    }

    fn push_attend(&self, li: usize, runs: &Vec<Run>, ops: &mut Vec<Op>)
        requires
            self.fits(),
        ensures
            final(ops)@ == old(ops)@ + self.attend_ops(li, runs@),
    {
        let c = self.cfg;
        let half: bool = self.half();
        let rows: i32 = self.rows;
        let heads: i32 = c.n_heads as i32;
        let kv_heads: i32 = c.n_kv_heads as i32;
        let dim: i32 = c.head_dim as i32;
        let max_seq: i32 = c.max_seq_len as i32;
        let k = Buf::KCache(li);
        let v = Buf::VCache(li);
        if self.paged {
            let tokens_per_page: i32 = self.tokens_per_page as i32;
            ops.push(
                Op::KvStorePaged {
                    half,
                    kv: Buf::K,
                    cache: k,
                    rows,
                    kv_heads,
                    dim,
                    tokens_per_page,
                },
            );
            ops.push(
                Op::KvStorePaged {
                    half,
                    kv: Buf::V,
                    cache: v,
                    rows,
                    kv_heads,
                    dim,
                    tokens_per_page,
                },
            );
            ops.push(
                Op::AttnPaged {
                    half,
                    k,
                    v,
                    rows,
                    heads,
                    kv_heads,
                    dim,
                    tokens_per_page,
                    max_pages: self.max_pages_per_seq as i32,
                },
            );
            assert(ops@ =~= old(ops)@ + self.attend_ops(li, runs@));
        } else {
            ops.push(Op::KvStore { half, kv: Buf::K, cache: k, rows, kv_heads, dim, max_seq });
            ops.push(Op::KvStore { half, kv: Buf::V, cache: v, rows, kv_heads, dim, max_seq });
            ops.push(Op::AttnBatched { half, k, v, rows, heads, kv_heads, dim, max_seq });
            let ghost before = ops@;
            if half {
                let mut i: usize = 0;
                while i < runs.len()
                    invariant
                        i <= runs.len(),
                        self.fits(),
                        ops@ == before + self.run_ops(li, runs@).take(i as int),
                        k == Buf::KCache(li),
                        v == Buf::VCache(li),
                        heads == self.cfg.n_heads as i32,
                        kv_heads == self.cfg.n_kv_heads as i32,
                        dim == self.cfg.head_dim as i32,
                        max_seq == self.cfg.max_seq_len as i32,
                    decreases runs.len() - i,
                {
                    ops.push(
                        Op::AttnPrefillF16 { k, v, run: runs[i], heads, kv_heads, dim, max_seq },
                    );
                    i = i + 1;
                    assert(ops@ =~= before + self.run_ops(li, runs@).take(i as int));
                }
                assert(self.run_ops(li, runs@).take(i as int) =~= self.run_ops(li, runs@));
            }
            assert(ops@ =~= old(ops)@ + self.attend_ops(li, runs@));
        }
    }

    fn push_attn_out(&self, li: usize, l: &LayerDev, ops: &mut Vec<Op>)
        requires
            self.fits(),
        ensures
            final(ops)@ == old(ops)@ + self.attn_out_ops(li, *l),
    {
        proof {
            self.lemma_fits();
        }
        let nq: usize = self.nq();
        if self.cfg.attn_output_gate {
            ops.push(Op::AttnGateApply { n: (self.rows as usize * nq) as i32 });
        }
        ops.push(
            self.plan_gemm(Buf::Proj, Buf::Attn, li, Tensor::Wo, l.q4_wo, self.cfg.d_model, nq),
        );
        ops.push(self.plan_add(Buf::X, Buf::Proj));
        assert(ops@ =~= old(ops)@ + self.attn_out_ops(li, *l));
    }

    fn push_attention(&self, li: usize, l: &LayerDev, runs: &Vec<Run>, ops: &mut Vec<Op>)
        requires
            self.fits(),
        ensures
            final(ops)@ == old(ops)@ + self.attention_ops(li, *l, runs@),
    {
        if self.cfg.kv_lora_rank > 0 {
            self.push_mla_project(li, ops);
            self.push_mla_attend(li, ops);
        } else if l.has_gdn {
            self.push_gdn(li, l, ops);
        } else {
            self.push_qkv(li, l, ops);
            self.push_rotate(li, l, ops);
            self.push_attend(li, runs, ops);
            self.push_attn_out(li, l, ops);
        }
        assert(ops@ =~= old(ops)@ + self.attention_ops(li, *l, runs@));
    }

    fn push_grouped(&self, li: usize, ops: &mut Vec<Op>)
        requires
            self.fits(),
        ensures
            final(ops)@ == old(ops)@ + self.grouped_ops(li),
    {
        proof {
            self.lemma_fits();
        }
        let topk: usize = self.topk();
        let routed: usize = self.rows as usize * topk;
        let width: usize = self.cfg.expert_size();
        let rows: i32 = routed as i32;
        let inter: i32 = width as i32;
        let d: i32 = self.cfg.d_model as i32;
        let source = if self.q4_experts {
            ExpertSource::Q4
        } else {
            self.source()
        };
        ops.push(
            Op::MoeGroupedGateUp { layer: li, source, rows, inter, d, topk: topk as i32 },
        );
        ops.push(
            Op::SiluMul {
                up: Buf::UpAll,
                gate: Buf::GateAll,
                out: Buf::EhAll,
                n: (routed * width) as i32,
            },
        );
        ops.push(Op::MoeGroupedDown { layer: li, source, rows, d, inter });
        ops.push(Op::MoeScatterAll { rows: self.rows, topk: topk as i32, d });
        assert(ops@ =~= old(ops)@ + self.grouped_ops(li));
    }

    fn source(&self) -> (source: ExpertSource)
        ensures
            source == self.expert_source(),
    {
        if self.half() {
            ExpertSource::F16
        } else if self.prefetch {
            ExpertSource::Prefetched
        } else {
            ExpertSource::Resident
        }
    }

    fn push_segmented(&self, li: usize, ops: &mut Vec<Op>)
        requires
            self.fits(),
        ensures
            final(ops)@ == old(ops)@ + self.segmented_ops(li),
    {
        proof {
            self.lemma_fits();
        }
        let experts: i32 = self.cfg.num_experts as i32;
        let topk: i32 = self.topk() as i32;
        let d: i32 = self.cfg.d_model as i32;
        let rows: i32 = self.rows;
        let count_bytes: usize = self.cfg.num_experts * 4;
        let acc_bytes: usize = rows as usize * self.cfg.d_model * 4;
        ops.push(Op::Memset { buf: Buf::CountsDev, bytes: count_bytes });
        ops.push(Op::Memset { buf: Buf::MoePosDev, bytes: count_bytes });
        ops.push(Op::MoeCountExperts { rows, topk });
        ops.push(Op::MoePrefixSum { experts });
        ops.push(Op::MoeGatherRows { rows, topk, d });
        ops.push(Op::MoeReadCounts { experts });
        ops.push(Op::Memset { buf: Buf::HAcc, bytes: acc_bytes });
        ops.push(Op::MoeHostExperts { layer: li, source: self.source() });
        assert(ops@ =~= old(ops)@ + self.segmented_ops(li));
    }

    fn push_shared(&self, li: usize, ops: &mut Vec<Op>)
        requires
            self.fits(),
        ensures
            final(ops)@ == old(ops)@ + self.shared_ops(li),
    {
        proof {
            self.lemma_fits();
        }
        let d: usize = self.cfg.d_model;
        let w: usize = self.cfg.shared_size();
        ops.push(self.plan_gemm(Buf::Gate, Buf::Xn2, li, Tensor::SharedWg, false, w, d));
        ops.push(self.plan_gemm(Buf::Up, Buf::Xn2, li, Tensor::SharedWu, false, w, d));
        ops.push(
            Op::SiluMul {
                up: Buf::Up,
                gate: Buf::Gate,
                out: Buf::H,
                n: (self.rows as usize * w) as i32,
            },
        );
        ops.push(self.plan_gemm(Buf::Proj, Buf::H, li, Tensor::SharedWd, false, d, w));
        ops.push(self.plan_add(Buf::HAcc, Buf::Proj));
        assert(ops@ =~= old(ops)@ + self.shared_ops(li));
    }

    fn is_grouped(&self) -> (b: bool)
        ensures
            b == self.grouped(),
    {
        (self.moe_grouped && self.decode_only) || self.q4_experts
    }

    fn is_offloaded(&self) -> (b: bool)
        ensures
            b == self.offloaded(),
    {
        !self.prefetch && self.expert_slots < self.cfg.num_experts
    }

    fn push_moe(&self, li: usize, l: &LayerDev, ops: &mut Vec<Op>)
        requires
            self.fits(),
        ensures
            final(ops)@ == old(ops)@ + self.moe_ops(li, *l),
    {
        proof {
            self.lemma_fits();
        }
        let c = self.cfg;
        let topk: i32 = self.topk() as i32;
        if topk > 0 {
            ops.push(
                self.plan_gemm(
                    Buf::Router,
                    Buf::Xn2,
                    li,
                    Tensor::MoeRouter,
                    false,
                    c.num_experts,
                    c.d_model,
                ),
            );
            ops.push(
                Op::MoeRouter {
                    experts: c.num_experts as i32,
                    topk,
                    rows: self.rows,
                    norm_topk: c.moe_norm_topk,
                    scale: c.moe_routed_scale,
                },
            );
            if self.is_offloaded() {
                ops.push(
                    Op::MoeCpu {
                        layer: li,
                        topk,
                        rows: self.rows,
                        d: c.d_model as i32,
                        inter: c.expert_size() as i32,
                    },
                );
            } else {
                if self.prefetch {
                    ops.push(Op::PrefetchReady { layer: li });
                }
                if self.is_grouped() {
                    self.push_grouped(li, ops);
                } else {
                    self.push_segmented(li, ops);
                }
                if l.has_shared {
                    self.push_shared(li, ops);
                }
                ops.push(self.plan_add(Buf::X, Buf::HAcc));
            }
        }
        assert(ops@ =~= old(ops)@ + self.moe_ops(li, *l));
    }

    fn push_mlp(&self, li: usize, l: &LayerDev, ops: &mut Vec<Op>)
        requires
            self.fits(),
        ensures
            final(ops)@ == old(ops)@ + self.mlp_ops(li, *l),
    {
        proof {
            self.lemma_fits();
        }
        let d: usize = self.cfg.d_model;
        let w: usize = self.cfg.intermediate_size;
        ops.push(self.plan_gemm(Buf::Gate, Buf::Xn2, li, Tensor::Wg, l.q4_wg, w, d));
        ops.push(self.plan_gemm(Buf::Up, Buf::Xn2, li, Tensor::Wu, l.q4_wu, w, d));
        ops.push(
            Op::SiluMul {
                up: Buf::Up,
                gate: Buf::Gate,
                out: Buf::H,
                n: (self.rows as usize * w) as i32,
            },
        );
        ops.push(self.plan_gemm(Buf::Proj, Buf::H, li, Tensor::Wd, l.q4_wd, d, w));
        ops.push(self.plan_add(Buf::X, Buf::Proj));
        assert(ops@ =~= old(ops)@ + self.mlp_ops(li, *l));
    }

    fn plan_trace(&self, label: MoeTrace, buf: Buf, width: usize) -> (op: Op)
        requires
            0 <= self.rows,
            self.rows * width <= i32::MAX,
        ensures
            op == self.trace(label, buf, width as int),
    {
        let last: usize = if self.rows > 0 {
            (self.rows - 1) as usize
        } else {
            0
        };
        proof {
            lemma_mul_le(width as int, last as int, self.rows as int);
            lemma_mul_nonneg(width as int, last as int);
            assert(last * width == width * last) by (nonlinear_arith);
            assert(self.rows * width == width * self.rows) by (nonlinear_arith);
        }
        Op::DumpMoe { label, buf, offset: last * width, len: width }
    }

    fn push_trace(&self, l: &LayerDev, ops: &mut Vec<Op>)
        requires
            self.fits(),
            self.rows > 0,
        ensures
            final(ops)@ == old(ops)@ + self.trace_ops(*l),
    {
        proof {
            self.lemma_fits();
            self.lemma_trace_widths();
        }
        let d: usize = self.cfg.d_model;
        let topk: usize = self.topk();
        let w: usize = topk * self.cfg.expert_size();
        let sw: usize = self.cfg.shared_size();
        ops.push(self.plan_trace(MoeTrace::Router, Buf::Router, self.cfg.num_experts));
        ops.push(self.plan_trace(MoeTrace::Xn2, Buf::Xn2, d));
        ops.push(self.plan_trace(MoeTrace::GateAll, Buf::GateAll, w));
        ops.push(self.plan_trace(MoeTrace::UpAll, Buf::UpAll, w));
        ops.push(self.plan_trace(MoeTrace::EhAll, Buf::EhAll, w));
        ops.push(self.plan_trace(MoeTrace::DownAll, Buf::DownAll, topk * d));
        ops.push(self.plan_trace(MoeTrace::HAcc, Buf::HAcc, d));
        if l.has_shared {
            ops.push(self.plan_trace(MoeTrace::SharedGate, Buf::Gate, sw));
            ops.push(self.plan_trace(MoeTrace::SharedUp, Buf::Up, sw));
            ops.push(self.plan_trace(MoeTrace::SharedH, Buf::H, sw));
            ops.push(self.plan_trace(MoeTrace::SharedProj, Buf::Proj, d));
        }
        assert(ops@ =~= old(ops)@ + self.trace_ops(*l));
    }

    proof fn lemma_trace_widths(self)
        requires
            self.fits(),
            self.rows > 0,
        ensures
            0 <= self.spec_topk() * self.cfg.spec_expert_size() <= i32::MAX,
            self.rows * (self.spec_topk() * self.cfg.spec_expert_size()) <= i32::MAX,
            0 <= self.spec_topk() * self.cfg.d_model <= i32::MAX,
            self.rows * (self.spec_topk() * self.cfg.d_model) <= i32::MAX,
    {
        let r = self.rows as int;
        let t = self.spec_topk();
        let e = self.cfg.spec_expert_size() as int;
        let d = self.cfg.d_model as int;
        assert(r * (t * e) == r * t * e) by (nonlinear_arith);
        assert(r * (t * d) == r * t * d) by (nonlinear_arith);
        lemma_mul_nonneg(t, e);
        lemma_mul_nonneg(t, d);
        assert(t * e <= r * (t * e)) by (nonlinear_arith)
            requires
                r >= 1,
                0 <= t * e,
        ;
        assert(t * d <= r * (t * d)) by (nonlinear_arith)
            requires
                r >= 1,
                0 <= t * d,
        ;
    }

    fn push_dump(&self, li: usize, l: &LayerDev, ops: &mut Vec<Op>)
        requires
            self.fits(),
            self.rows > 0,
        ensures
            final(ops)@ == old(ops)@ + self.dump_ops(li, *l),
    {
        if self.layer_dump {
            proof {
                self.lemma_fits();
                lemma_mul_le(self.spec_topk(), self.rows - 1, self.rows as int);
                lemma_mul_nonneg(self.spec_topk(), self.rows - 1);
                assert((self.rows - 1) * self.spec_topk() == self.spec_topk() * (self.rows - 1))
                    by (nonlinear_arith);
                assert(self.rows * self.spec_topk() == self.spec_topk() * self.rows)
                    by (nonlinear_arith);
            }
            let topk: usize = self.topk();
            let moe: bool = self.cfg.num_experts > 0 && l.has_router;
            ops.push(Op::DumpLayer { layer: li, rows: self.rows, d: self.cfg.d_model as i32 });
            if moe && topk > 0 {
                let offset: usize = (self.rows - 1) as usize * topk;
                ops.push(Op::DumpRouting { layer: li, offset, topk });
            }
            if li == 1 && moe && topk > 0 && self.is_grouped() && !self.is_offloaded() {
                self.push_trace(l, ops);
            }
        }
        assert(ops@ =~= old(ops)@ + self.dump_ops(li, *l));
    }

    fn push_first_half(&self, li: usize, l: &LayerDev, runs: &Vec<Run>, ops: &mut Vec<Op>)
        requires
            self.fits(),
        ensures
            final(ops)@ == old(ops)@ + self.first_half_ops(li, *l, runs@),
    {
        let d: usize = self.cfg.d_model;
        let profiled: bool = self.profile && li < self.cfg.n_layers;
        if profiled {
            ops.push(Op::Record { point: ProfPoint::LayerStart(li) });
        }
        if self.prefetch {
            ops.push(Op::PrefetchLayerBegin { layer: li });
        }
        ops.push(self.plan_norm(Buf::X, li, Tensor::RmsAttn, Buf::Xn, d));
        self.push_attention(li, l, runs, ops);
        if profiled {
            ops.push(Op::Record { point: ProfPoint::AttnDone(li) });
        }
        if self.layer_dump {
            ops.push(Op::DumpMid { layer: li, rows: self.rows, d: d as i32 });
        }
        assert(ops@ =~= old(ops)@ + self.first_half_ops(li, *l, runs@));
    }

    fn push_second_half(&self, li: usize, l: &LayerDev, ops: &mut Vec<Op>)
        requires
            self.fits(),
            self.rows > 0,
        ensures
            final(ops)@ == old(ops)@ + self.second_half_ops(li, *l),
    {
        let d: usize = self.cfg.d_model;
        ops.push(self.plan_norm(Buf::X, li, Tensor::RmsMlp, Buf::Xn2, d));
        if self.cfg.num_experts > 0 && l.has_router {
            self.push_moe(li, l, ops);
        } else {
            self.push_mlp(li, l, ops);
        }
        self.push_dump(li, l, ops);
        if self.profile && li < self.cfg.n_layers {
            ops.push(Op::Record { point: ProfPoint::MlpDone(li) });
        }
        if self.prefetch {
            ops.push(Op::PrefetchLayerEnd { layer: li });
        }
        assert(ops@ =~= old(ops)@ + self.second_half_ops(li, *l));
    }

    fn push_layer(&self, li: usize, l: &LayerDev, runs: &Vec<Run>, ops: &mut Vec<Op>)
        requires
            self.fits(),
            self.rows > 0,
        ensures
            final(ops)@ == old(ops)@ + self.layer_ops(li, *l, runs@),
    {
        self.push_first_half(li, l, runs, ops);
        self.push_second_half(li, l, ops);
        assert(ops@ =~= old(ops)@ + self.layer_ops(li, *l, runs@));
    }

    fn push_tail(&self, ops: &mut Vec<Op>)
        requires
            self.fits(),
        ensures
            final(ops)@ == old(ops)@ + self.tail_ops(),
    {
        let d: i32 = self.cfg.d_model as i32;
        ops.push(
            Op::RmsNorm {
                x: Buf::X,
                w: Weight { layer: None, tensor: Tensor::RmsFinal, copy: DeviceCopy::F32 },
                y: Buf::Xn,
                rows: self.rows,
                cols: d,
            },
        );
        let path = self.select_gemm(self.q4_dense, self.cfg.d_model);
        ops.push(
            Op::Gemm {
                path,
                out: Buf::Logits,
                x: Buf::Xn,
                w: Weight { layer: None, tensor: Tensor::LmHead, copy: Step::copy_for(path) },
                n: self.cfg.vocab_size as i32,
                k: d,
                rows: self.rows,
            },
        );
        if self.profile {
            ops.push(Op::Record { point: ProfPoint::StepEnd });
        }
        assert(ops@ =~= old(ops)@ + self.tail_ops());
    }

    /// The operations of one forward pass over the given layers.
    pub fn run_kernels(&self, layers: &Vec<LayerDev>, runs: &Vec<Run>) -> (ops: Vec<Op>)
        requires
            self.fits(),
            self.rows > 0,
        ensures
            ops@ == self.forward_ops(layers@, runs@),
    {
        let mut ops: Vec<Op> = Vec::new();
        self.push_head(&mut ops);
        assert(ops@ =~= self.head_ops());
        let mut li: usize = 0;
        assert(ops@ =~= self.head_ops() + self.layers_ops(layers@, runs@, 0));
        while li < layers.len()
            invariant
                self.fits(),
                self.rows > 0,
                li <= layers.len(),
                ops@ == self.head_ops() + self.layers_ops(layers@, runs@, li as nat),
            decreases layers.len() - li,
        {
            self.push_layer(li, &layers[li], runs, &mut ops);
            li = li + 1;
            assert(ops@ =~= self.head_ops() + self.layers_ops(layers@, runs@, li as nat));
        }
        self.push_tail(&mut ops);
        assert(ops@ =~= self.forward_ops(layers@, runs@));
        ops
    }
}

/// Rows routed to the first `e` experts: where expert `e`'s packed rows begin.
pub open spec fn expert_base(counts: Seq<i32>, e: nat) -> int
    decreases e,
{
    if e == 0 {
        0
    } else {
        expert_base(counts, (e - 1) as nat) + counts[e - 1]
    }
}

impl Step {
    /// The operations of one expert with routed rows.
    pub open spec fn one_expert_ops(
        self,
        layer: usize,
        source: ExpertSource,
        e: nat,
        base: int,
        rows: i32,
    ) -> Seq<Op> {
        let d = self.cfg.d_model as int;
        let w = self.cfg.spec_expert_size() as int;
        let at = (base * d) as usize;
        let w_offset = (e * (w * d)) as usize;
        seq![
            Op::ExpertGemm {
                layer,
                source,
                tensor: Tensor::MoeWg,
                w_offset,
                out: Buf::GateAll,
                out_offset: 0,
                x: Buf::Xg,
                x_offset: at,
                n: w as i32,
                k: d as i32,
                rows,
            },
            Op::ExpertGemm {
                layer,
                source,
                tensor: Tensor::MoeWu,
                w_offset,
                out: Buf::UpAll,
                out_offset: 0,
                x: Buf::Xg,
                x_offset: at,
                n: w as i32,
                k: d as i32,
                rows,
            },
            Op::SiluMul {
                up: Buf::UpAll,
                gate: Buf::GateAll,
                out: Buf::EhAll,
                n: (rows * w) as i32,
            },
            Op::ExpertGemm {
                layer,
                source,
                tensor: Tensor::MoeWd,
                w_offset,
                out: Buf::DownAll,
                out_offset: at,
                x: Buf::EhAll,
                x_offset: 0,
                n: d as i32,
                k: w as i32,
                rows,
            },
            Op::MoeScatterAdd { base: base as usize, down_offset: at, rows, d: d as i32 },
        ]
    }

    /// The operations of the first `n` experts; an expert without rows issues none.
    pub open spec fn expert_ops(
        self,
        layer: usize,
        source: ExpertSource,
        counts: Seq<i32>,
        n: nat,
    ) -> Seq<Op>
        decreases n,
    {
        if n == 0 {
            Seq::empty()
        } else {
            let e = (n - 1) as nat;
            self.expert_ops(layer, source, counts, e) + if counts[e as int] > 0 {
                self.one_expert_ops(
                    layer,
                    source,
                    e,
                    expert_base(counts, e),
                    counts[e as int],
                )
            } else {
                Seq::empty()
            }
        }
    }

    /// The per-expert work of one layer, once the counts are on the host.
    pub fn host_experts(&self, layer: usize, source: ExpertSource, counts: &Vec<i32>) -> (ops: Vec<
        Op,
    >)
        requires
            self.fits(),
            counts.len() <= self.cfg.num_experts,
            forall|e: int| 0 <= e < counts.len() ==> #[trigger] counts[e] >= 0,
            expert_base(counts@, counts@.len()) <= self.rows * self.spec_topk(),
        ensures
            ops@ == self.expert_ops(layer, source, counts@, counts@.len()),
    {
        let mut ops: Vec<Op> = Vec::new();
        let mut base: usize = 0;
        let mut e: usize = 0;
        let d: usize = self.cfg.d_model;
        let w: usize = self.cfg.expert_size();
        let ghost routed = self.rows * self.spec_topk();
        proof {
            self.lemma_fits();
            lemma_mul_nonneg(w as int, d as int);
            assert(ops@ =~= self.expert_ops(layer, source, counts@, 0));
        }
        while e < counts.len()
            invariant
                self.fits(),
                e <= counts.len(),
                counts.len() <= self.cfg.num_experts,
                forall|i: int| 0 <= i < counts.len() ==> #[trigger] counts[i] >= 0,
                d == self.cfg.d_model,
                w == self.cfg.spec_expert_size(),
                routed == self.rows * self.spec_topk(),
                expert_base(counts@, counts@.len()) <= routed,
                base == expert_base(counts@, e as nat),
                ops@ == self.expert_ops(layer, source, counts@, e as nat),
            decreases counts.len() - e,
        {
            let rows: i32 = counts[e];
            proof {
                lemma_expert_base(counts@, (e + 1) as nat, counts@.len());
                lemma_expert_base(counts@, e as nat, counts@.len());
                self.lemma_fits();
                lemma_mul_nonneg(w as int, d as int);
                lemma_mul_le(w * d, e as int, self.cfg.num_experts as int);
                lemma_mul_nonneg(w * d, e as int);
                assert(e * (w * d) == (w * d) * e) by (nonlinear_arith);
                assert(self.cfg.num_experts * (w * d) == (w * d) * self.cfg.num_experts)
                    by (nonlinear_arith);
                assert(w * d <= usize::MAX) by {
                    lemma_mul_le(w * d, 1, self.cfg.num_experts as int);
                }
                lemma_mul_le(d as int, base as int, routed);
                lemma_mul_nonneg(d as int, base as int);
                assert(base * d == d * base) by (nonlinear_arith);
                assert(routed * d == d * routed) by (nonlinear_arith);
                lemma_mul_le(w as int, rows as int, routed);
                lemma_mul_nonneg(w as int, rows as int);
                assert(rows * w == w * rows) by (nonlinear_arith);
                assert(routed * w == w * routed) by (nonlinear_arith);
            }
            if rows > 0 {
                let at: usize = base * d;
                let w_offset: usize = e * (w * d);
                ops.push(
                    Op::ExpertGemm {
                        layer,
                        source,
                        tensor: Tensor::MoeWg,
                        w_offset,
                        out: Buf::GateAll,
                        out_offset: 0,
                        x: Buf::Xg,
                        x_offset: at,
                        n: w as i32,
                        k: d as i32,
                        rows,
                    },
                );
                ops.push(
                    Op::ExpertGemm {
                        layer,
                        source,
                        tensor: Tensor::MoeWu,
                        w_offset,
                        out: Buf::UpAll,
                        out_offset: 0,
                        x: Buf::Xg,
                        x_offset: at,
                        n: w as i32,
                        k: d as i32,
                        rows,
                    },
                );
                ops.push(
                    Op::SiluMul {
                        up: Buf::UpAll,
                        gate: Buf::GateAll,
                        out: Buf::EhAll,
                        n: (rows as usize * w) as i32,
                    },
                );
                ops.push(
                    Op::ExpertGemm {
                        layer,
                        source,
                        tensor: Tensor::MoeWd,
                        w_offset,
                        out: Buf::DownAll,
                        out_offset: at,
                        x: Buf::EhAll,
                        x_offset: 0,
                        n: d as i32,
                        k: w as i32,
                        rows,
                    },
                );
                ops.push(Op::MoeScatterAdd { base, down_offset: at, rows, d: d as i32 });
            }
            proof {
                assert(ops@ =~= self.expert_ops(layer, source, counts@, (e + 1) as nat));
            }
            base = base + rows as usize;
            e = e + 1;
        }
        ops
    }
}

/// Expert segments are laid out in order without overlap.
pub proof fn lemma_expert_base(counts: Seq<i32>, a: nat, b: nat)
    requires
        a <= b <= counts.len(),
        forall|i: int| 0 <= i < counts.len() ==> #[trigger] counts[i] >= 0,
    ensures
        0 <= expert_base(counts, a) <= expert_base(counts, b),
        a < b ==> expert_base(counts, a) + counts[a as int] <= expert_base(counts, b),
    decreases b,
{
    if a < b {
        lemma_expert_base(counts, a, (b - 1) as nat);
    } else if a > 0 {
        lemma_expert_base(counts, (a - 1) as nat, (a - 1) as nat);
    }
}

/// Whether a product stays within a limit.
fn mul_fits(a: usize, b: usize, max: usize) -> (fits: bool)
    ensures
        fits == (a * b <= max),
{
    match a.checked_mul(b) {
        Some(p) => p <= max,
        None => false,
    }
}

/// Whether a sum stays within a limit.
fn add_fits(a: usize, b: usize, max: usize) -> (fits: bool)
    ensures
        fits == (a + b <= max),
{
    match a.checked_add(b) {
        Some(p) => p <= max,
        None => false,
    }
}

impl Step {
    /// Single widths within 32 bits.
    fn widths_fit(&self) -> (b: bool)
        ensures
            b == ({
                let c = self.cfg;
                let m = i32::MAX as int;
                &&& 0 <= self.rows
                &&& c.vocab_size <= m
                &&& c.d_model <= m
                &&& c.max_seq_len <= m
                &&& c.n_heads <= m
                &&& c.n_kv_heads <= m
                &&& c.head_dim <= m
                &&& c.intermediate_size <= m
                &&& c.num_experts <= m
                &&& c.spec_expert_size() <= m
                &&& c.q_lora_rank <= m
                &&& c.gdn_k_heads <= m
                &&& c.gdn_v_heads <= m
                &&& c.gdn_head_dim <= m
                &&& c.gdn_conv_kernel <= m
                &&& self.tokens_per_page <= m
                &&& self.max_pages_per_seq <= m
                &&& self.rotary_dim <= m
            }),
    {
        let c = self.cfg;
        let m: usize = i32::MAX as usize;
        0 <= self.rows && c.vocab_size <= m && c.d_model <= m && c.max_seq_len <= m && c.n_heads
            <= m && c.n_kv_heads <= m && c.head_dim <= m && c.intermediate_size <= m
            && c.num_experts <= m && c.expert_size() <= m && c.q_lora_rank <= m && c.gdn_k_heads
            <= m && c.gdn_v_heads <= m && c.gdn_head_dim <= m && c.gdn_conv_kernel <= m
            && self.tokens_per_page <= m && self.max_pages_per_seq <= m && self.rotary_dim <= m
    }

    /// Whether every width and product that the kernels take as a 32-bit integer is one.
    pub fn check_fits(&self) -> (b: bool)
        ensures
            b == self.fits(),
    {
        if !self.widths_fit() {
            return false;
        }
        let c = self.cfg;
        let m: usize = i32::MAX as usize;
        let rows: usize = self.rows as usize;
        let e: usize = c.expert_size();
        if !(add_fits(c.kv_lora_rank, c.qk_rope_head_dim, m) && add_fits(
            c.qk_nope_head_dim,
            c.qk_rope_head_dim,
            m,
        ) && add_fits(c.qk_nope_head_dim, c.v_head_dim, m)) {
            return false;
        }
        if !(mul_fits(c.n_heads, c.qk_nope_head_dim + c.qk_rope_head_dim, m) && mul_fits(
            c.n_heads,
            c.qk_nope_head_dim + c.v_head_dim,
            m,
        ) && mul_fits(c.n_shared_experts, e, m)) {
            return false;
        }
        proof {
            lemma_mul_nonneg(c.gdn_k_heads as int, c.gdn_head_dim as int);
            lemma_mul_nonneg(c.gdn_v_heads as int, c.gdn_head_dim as int);
            lemma_mul_nonneg(c.n_heads as int, c.head_dim as int);
        }
        if !(mul_fits(c.gdn_k_heads, c.gdn_head_dim, m) && mul_fits(
            c.gdn_v_heads,
            c.gdn_head_dim,
            m,
        )) {
            return false;
        }
        if !(mul_fits(c.n_heads, c.head_dim, m / 2) && mul_fits(c.n_kv_heads, c.head_dim, m)) {
            return false;
        }
        let kd: usize = c.gdn_key_dim();
        if !(kd <= m / 2 && add_fits(2 * kd, c.gdn_value_dim(), m)) {
            return false;
        }
        let nq: usize = c.n_heads * c.head_dim;
        let topk: usize = self.topk();
        if !(mul_fits(rows, c.d_model, m) && mul_fits(rows, nq, m) && mul_fits(
            rows,
            c.intermediate_size,
            m,
        ) && mul_fits(rows, c.shared_size(), m) && mul_fits(rows, topk, m) && mul_fits(
            rows,
            c.num_experts,
            m,
        )) {
            return false;
        }
        proof {
            lemma_mul_nonneg(rows as int, topk as int);
        }
        if !(mul_fits(rows * topk, e, m) && mul_fits(rows * topk, c.d_model, m)) {
            return false;
        }
        proof {
            lemma_mul_nonneg(e as int, c.d_model as int);
            if c.num_experts > 0 {
                lemma_mul_le(e * c.d_model, 1, c.num_experts as int);
                assert(c.num_experts * (e * c.d_model) == (e * c.d_model) * c.num_experts)
                    by (nonlinear_arith);
            }
        }
        if c.num_experts > 0 && !mul_fits(e, c.d_model, usize::MAX) {
            return false;
        }
        mul_fits(c.num_experts, 4, usize::MAX) && mul_fits(rows * c.d_model, 4, usize::MAX) && (
        c.num_experts == 0 || mul_fits(c.num_experts, e * c.d_model, usize::MAX))
    }
}

impl Step {
    /// Every projection contracts over a width that the GEMV kernel can stage.
    pub open spec fn narrow(self) -> bool {
        let c = self.cfg;
        &&& c.d_model <= GEMV_MAX_D
        &&& c.intermediate_size <= GEMV_MAX_D
        &&& self.spec_shared_size() <= GEMV_MAX_D
        &&& if c.kv_lora_rank > 0 {
            &&& c.q_lora_rank <= GEMV_MAX_D
            &&& c.kv_lora_rank <= GEMV_MAX_D
            &&& c.n_heads * c.v_head_dim <= GEMV_MAX_D
        } else {
            &&& self.spec_nq() <= GEMV_MAX_D
            &&& c.spec_gdn_value_dim() <= GEMV_MAX_D
        }
    }

    /// The step can be recorded into a graph: a pure decode step of few rows on the custom
    /// GEMV path, with a fully device-driven MoE and no profiler, prefetch stream or dump.
    pub open spec fn capture_ok(self) -> bool {
        &&& self.decode_only
        &&& !self.profile
        &&& !self.prefetch
        &&& !self.layer_dump
        &&& self.spec_half()
        &&& 0 < self.rows <= GEMV_MAX_M
        &&& self.narrow()
        &&& self.cfg.num_experts > 0 ==> self.grouped() && self.expert_slots
            >= self.cfg.num_experts
    }

    /// Whether the step can be recorded into a graph.
    pub fn captures(&self) -> (b: bool)
        requires
            self.fits(),
        ensures
            b == self.capture_ok(),
    {
        proof {
            self.lemma_fits();
        }
        if !self.decode_only || self.profile || self.prefetch || self.layer_dump || !self.half()
            || self.rows <= 0 || self.rows > GEMV_MAX_M {
            return false;
        }
        let c = self.cfg;
        let max: usize = GEMV_MAX_D as usize;
        if c.d_model > max || c.intermediate_size > max || c.shared_size() > max {
            return false;
        }
        if c.kv_lora_rank > 0 {
            if c.q_lora_rank > max || c.kv_lora_rank > max || c.n_heads * c.v_head_dim > max {
                return false;
            }
        } else if self.nq() > max || c.gdn_value_dim() > max {
            return false;
        }
        c.num_experts == 0 || (self.is_grouped() && self.expert_slots >= c.num_experts)
    }
}

} // verus!
