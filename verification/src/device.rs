//! Vocabulary of device work: the buffers a model owns, its weight tensors, and the operations
//! that one forward pass issues.

use vstd::prelude::*;

use crate::config::F32Bits;

verus! {

/// A buffer of the model. The per-layer ones name their layer.
#[derive(Debug, Clone, Copy, PartialEq, Eq, Structural)]
pub enum Buf {
    TokensDev,
    PosDev,
    SlotsDev,
    RunsDev,
    RunMaskDev,
    TokensHost,
    PosHost,
    SlotsHost,
    RunsHost,
    RunMaskHost,
    X,
    Xn,
    Xn2,
    Q,
    K,
    V,
    Attn,
    Proj,
    Gate,
    Up,
    H,
    Logits,
    Xh,
    Yh,
    OutTokDev,
    OutTokHost,
    KCache(usize),
    VCache(usize),
    MlaQLora,
    MlaQLoraN,
    QNope,
    QRope,
    MlaKvA,
    MlaKvAN,
    MlaKvLora,
    MlaKv,
    MlaKRope,
    MlaAttn,
    MlaKCache(usize),
    MlaVCache(usize),
    Qg,
    AttnGate,
    GdnQkvPre,
    GdnQkv,
    GdnZ,
    GdnA,
    GdnB,
    GdnO,
    GdnState(usize),
    GdnConv(usize),
    Router,
    ExpIds,
    ExpW,
    CountsDev,
    MoePosDev,
    OffsetsDev,
    Xg,
    Gw,
    RowIdx,
    HAcc,
    GateAll,
    UpAll,
    EhAll,
    DownAll,
    CountsHost,
    XhMoe,
    YhMoe,
}

/// A weight tensor of the model or of one layer.
#[derive(Debug, Clone, Copy, PartialEq, Eq, Structural)]
pub enum Tensor {
    TokEmb,
    RmsFinal,
    LmHead,
    Wq,
    Wk,
    Wv,
    Wo,
    RmsAttn,
    Wg,
    Wu,
    Wd,
    RmsMlp,
    Bq,
    Bk,
    Bv,
    QNorm,
    KNorm,
    MlaQA,
    MlaQANorm,
    MlaQB,
    MlaQRope,
    MlaKvA,
    MlaKvANorm,
    MlaKvB,
    MlaO,
    MoeRouter,
    MoeWg,
    MoeWu,
    MoeWd,
    SharedWg,
    SharedWu,
    SharedWd,
    GdnInQkv,
    GdnInZ,
    GdnInA,
    GdnInB,
    GdnOut,
    GdnConvW,
    GdnALog,
    GdnDtBias,
    GdnNorm,
}

/// Form in which a weight tensor lies on the device.
#[derive(Debug, Clone, Copy, PartialEq, Eq, Structural)]
pub enum DeviceCopy {
    F32,
    F16,
    /// Packed int4 bytes with per-group scales.
    Q4,
}

/// One device copy of a weight tensor; `layer` is `None` for the model-wide tensors.
#[derive(Debug, Clone, Copy, PartialEq, Eq, Structural)]
pub struct Weight {
    pub layer: Option<usize>,
    pub tensor: Tensor,
    pub copy: DeviceCopy,
}

/// How a projection is computed.
#[derive(Debug, Clone, Copy, PartialEq, Eq, Structural)]
pub enum GemmPath {
    /// In-kernel dequantization of the packed tensor, any row count.
    GemvQ4,
    /// Custom fp16 GEMV for few rows.
    GemvF16,
    /// Library fp16 GEMM through the fp16 scratch buffers.
    BatchedF16,
    /// Library fp32 GEMM.
    BatchedF32,
}

/// Where the expert weights of a grouped MoE launch come from.
#[derive(Debug, Clone, Copy, PartialEq, Eq, Structural)]
pub enum ExpertSource {
    Q4,
    F16,
    Resident,
    Prefetched,
}

/// A run of consecutive prompt rows of one sequence.
#[derive(Debug, Clone, Copy, PartialEq, Eq, Structural)]
pub struct Run {
    pub qoff: i32,
    pub count: i32,
    pub base: i32,
    pub slot: i32,
}

/// A point of the step profiler.
#[derive(Debug, Clone, Copy, PartialEq, Eq, Structural)]
pub enum ProfPoint {
    StepStart,
    LayerStart(usize),
    AttnDone(usize),
    MlpDone(usize),
    StepEnd,
}

/// Label of one intermediate of the MoE trace.
#[derive(Debug, Clone, Copy, PartialEq, Eq, Structural)]
pub enum MoeTrace {
    Router,
    Xn2,
    GateAll,
    UpAll,
    EhAll,
    DownAll,
    HAcc,
    SharedGate,
    SharedUp,
    SharedH,
    SharedProj,
}

/// One operation of a forward pass.
#[allow(inconsistent_fields)]
#[derive(Debug, Clone, Copy, PartialEq, Eq, Structural)]
pub enum Op {
    /// Embedding gather into `X` from the named copy of the table.
    Embed { copy: DeviceCopy, cols: i32, rows: i32 },
    RmsNorm { x: Buf, w: Weight, y: Buf, rows: i32, cols: i32 },
    /// `out[rows, n] = x[rows, k] * w[n, k]^T`.
    Gemm { path: GemmPath, out: Buf, x: Buf, w: Weight, n: i32, k: i32, rows: i32 },
    /// Fused q/k/v projection of one layer from its fp16 weights.
    GemvF16Qkv { layer: usize, q: Buf, nq: i32, nkv: i32, k: i32, rows: i32 },
    /// Splits the doubled q projection into queries and gates.
    QgSplit { rows: i32, heads: i32, dim: i32 },
    AddBias { x: Buf, bias: Weight, rows: i32, cols: i32 },
    QkNorm { layer: usize, rows: i32, heads: i32, kv_heads: i32, dim: i32 },
    Rope { q: Buf, k: Buf, rows: i32, heads: i32, kv_heads: i32, dim: i32, rot: i32 },
    KvStore { half: bool, kv: Buf, cache: Buf, rows: i32, kv_heads: i32, dim: i32, max_seq: i32 },
    KvStorePaged {
        half: bool,
        kv: Buf,
        cache: Buf,
        rows: i32,
        kv_heads: i32,
        dim: i32,
        tokens_per_page: i32,
    },
    AttnBatched {
        half: bool,
        k: Buf,
        v: Buf,
        rows: i32,
        heads: i32,
        kv_heads: i32,
        dim: i32,
        max_seq: i32,
    },
    AttnPaged {
        half: bool,
        k: Buf,
        v: Buf,
        rows: i32,
        heads: i32,
        kv_heads: i32,
        dim: i32,
        tokens_per_page: i32,
        max_pages: i32,
    },
    AttnPrefillF16 {
        k: Buf,
        v: Buf,
        run: Run,
        heads: i32,
        kv_heads: i32,
        dim: i32,
        max_seq: i32,
    },
    /// Multiplies the attention output by the sigmoid of its gating projection.
    AttnGateApply { n: i32 },
    /// `x += y`.
    Add { x: Buf, y: Buf, n: i32 },
    /// `out = silu(gate) * up`.
    SiluMul { up: Buf, gate: Buf, out: Buf, n: i32 },
    MlaExtractKvLora { rows: i32, rank: i32, rope: i32 },
    MlaExtractKRope { rows: i32, rank: i32, rope: i32 },
    MlaAssembleQ { rows: i32, heads: i32, nope: i32, rope: i32 },
    MlaStorePaged {
        layer: usize,
        rows: i32,
        heads: i32,
        nope: i32,
        rope: i32,
        v_dim: i32,
        tokens_per_page: i32,
    },
    MlaAttnPaged {
        layer: usize,
        rows: i32,
        heads: i32,
        nope: i32,
        rope: i32,
        v_dim: i32,
        tokens_per_page: i32,
        max_pages: i32,
    },
    MlaStore {
        layer: usize,
        rows: i32,
        max_seq: i32,
        heads: i32,
        nope: i32,
        rope: i32,
        v_dim: i32,
    },
    MlaAttn { layer: usize, rows: i32, heads: i32, k_dim: i32, v_dim: i32, max_seq: i32 },
    GdnConvUpdate { layer: usize, rows: i32, conv_dim: i32, keep: i32 },
    GdnL2NormQk { rows: i32, k_heads: i32, dim: i32, conv_dim: i32 },
    GdnStep { layer: usize, rows: i32, v_heads: i32, k_heads: i32, dim: i32, conv_dim: i32 },
    GdnGatedNorm { layer: usize, rows: i32, v_heads: i32, dim: i32 },
    MoeRouter { experts: i32, topk: i32, rows: i32, norm_topk: bool, scale: F32Bits },
    /// The MoE layer computed on the CPU from host weights.
    MoeCpu { layer: usize, topk: i32, rows: i32, d: i32, inter: i32 },
    MoeGroupedGateUp {
        layer: usize,
        source: ExpertSource,
        rows: i32,
        inter: i32,
        d: i32,
        topk: i32,
    },
    MoeGroupedDown { layer: usize, source: ExpertSource, rows: i32, d: i32, inter: i32 },
    MoeScatterAll { rows: i32, topk: i32, d: i32 },
    /// Zeroes the first `bytes` bytes.
    Memset { buf: Buf, bytes: usize },
    MoeCountExperts { rows: i32, topk: i32 },
    MoePrefixSum { experts: i32 },
    MoeGatherRows { rows: i32, topk: i32, d: i32 },
    /// Reads the per-expert counts back to the host and waits for them.
    MoeReadCounts { experts: i32 },
    /// The per-expert GEMMs, whose operations follow from the counts just read.
    MoeHostExperts { layer: usize, source: ExpertSource },
    /// One projection of one expert's packed rows, with element offsets into the buffers and
    /// into the layer's expert tensor.
    ExpertGemm {
        layer: usize,
        source: ExpertSource,
        tensor: Tensor,
        w_offset: usize,
        out: Buf,
        out_offset: usize,
        x: Buf,
        x_offset: usize,
        n: i32,
        k: i32,
        rows: i32,
    },
    MoeScatterAdd { base: usize, down_offset: usize, rows: i32, d: i32 },
    PrefetchBegin,
    PrefetchLayerBegin { layer: usize },
    PrefetchReady { layer: usize },
    PrefetchLayerEnd { layer: usize },
    Record { point: ProfPoint },
    DumpEmbedding { rows: i32, d: i32 },
    DumpMid { layer: usize, rows: i32, d: i32 },
    DumpLayer { layer: usize, rows: i32, d: i32 },
    /// Routing of the last row: `topk` ids and weights from element `offset`.
    DumpRouting { layer: usize, offset: usize, topk: usize },
    DumpMoe { label: MoeTrace, buf: Buf, offset: usize, len: usize },
}

} // verus!
