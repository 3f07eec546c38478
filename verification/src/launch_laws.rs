//! Every operation starts the kernel that computes it, with a thread or block for each piece of
//! its work.

use vstd::prelude::*;

use crate::device::DeviceCopy;
use crate::device::ExpertSource;
use crate::device::GemmPath;
use crate::device::Op;
use crate::kernels::entry_point;
use crate::kernels::GemmCall;
use crate::kernels::Kernel;
use crate::kernels::Launch;
use crate::op_launch::dispatched;
use crate::op_launch::in_range;
use crate::op_launch::refused;
use crate::op_launch::Dispatch;

verus! {

/// Precision of the weights or caches that a kernel reads.
#[derive(PartialEq, Eq, Structural)]
pub enum Precision {
    Single,
    Half,
    Packed,
}

/// What a kernel computes for the rows of a step.
#[derive(PartialEq, Eq, Structural)]
pub enum Purpose {
    /// Gathers rows of the embedding table.
    Gather(Precision),
    /// Root-mean-square norm of rows.
    Normalize,
    /// Norm of each query and key head.
    NormalizeHeads,
    /// Adds a bias to rows.
    Bias,
    /// Rotates queries and keys by their positions.
    Rotate,
    /// Adds one buffer to another.
    Sum,
    /// The gated activation.
    Activate,
    /// Multiplies rows with a weight matrix.
    Multiply(Precision),
    /// Changes the precision of numbers.
    Narrow,
    Widen,
    /// Stores keys or values, by slot or by page.
    Store { paged: bool, precision: Precision },
    /// Attention of rows over the caches, by slot or by page.
    Attend { paged: bool, precision: Precision },
    /// Attention of a run of prompt rows.
    AttendRun,
    /// The latent part of the compressed keys and values, and their rotary part.
    LatentPart,
    RotaryPart,
    /// Queries, or keys and values, of low-rank attention from their parts.
    AssembleQueries,
    StoreLatent { paged: bool },
    AttendLatent { paged: bool },
    /// Chooses experts and their weights for each row.
    Route,
    /// Gate and up projections of the chosen experts, and their down projection.
    ExpertsIn(Precision),
    ExpertsOut(Precision),
    /// The weighted sum of the expert outputs of each row.
    CombineExperts,
    /// How many rows each expert has, and where they start.
    CountRows,
    PlaceRows,
    /// Rows in expert order, and back.
    CollectRows,
    ReturnRows,
    /// Picks the largest logit.
    Pick,
    /// Serves a single row outside of steps.
    SingleRow,
}

/// What each kernel computes.
pub open spec fn purpose(k: Kernel) -> Purpose {
    match k {
        Kernel::EmbedBatched => Purpose::Gather(Precision::Single),
        Kernel::EmbedGatherHalf => Purpose::Gather(Precision::Half),
        Kernel::RmsNorm => Purpose::Normalize,
        Kernel::QkNorm => Purpose::NormalizeHeads,
        Kernel::AddBias => Purpose::Bias,
        Kernel::RopeBatched => Purpose::Rotate,
        Kernel::Add => Purpose::Sum,
        Kernel::SiluMul => Purpose::Activate,
        Kernel::GemvHalf => Purpose::Multiply(Precision::Half),
        Kernel::CastToHalf => Purpose::Narrow,
        Kernel::CastFromHalf => Purpose::Widen,
        Kernel::KvStoreBatched => Purpose::Store { paged: false, precision: Precision::Single },
        Kernel::KvStoreBatchedHalf => Purpose::Store {
            paged: false,
            precision: Precision::Half,
        },
        Kernel::KvStorePaged => Purpose::Store { paged: true, precision: Precision::Single },
        Kernel::KvStorePagedHalf => Purpose::Store { paged: true, precision: Precision::Half },
        Kernel::AttnDecodeBatched => Purpose::Attend {
            paged: false,
            precision: Precision::Single,
        },
        Kernel::AttnDecodeBatchedHalfGqa => Purpose::Attend {
            paged: false,
            precision: Precision::Half,
        },
        Kernel::AttnDecodePaged => Purpose::Attend { paged: true, precision: Precision::Single },
        Kernel::AttnDecodePagedHalfGqa => Purpose::Attend {
            paged: true,
            precision: Precision::Half,
        },
        Kernel::AttnPrefillHalf => Purpose::AttendRun,
        Kernel::MlaExtractKvLora => Purpose::LatentPart,
        Kernel::MlaExtractKRope => Purpose::RotaryPart,
        Kernel::MlaAssembleQBatched => Purpose::AssembleQueries,
        Kernel::MlaAssembleKvBatched => Purpose::StoreLatent { paged: false },
        Kernel::KvStorePagedMla => Purpose::StoreLatent { paged: true },
        Kernel::MlaAttnDecodeBatched => Purpose::AttendLatent { paged: false },
        Kernel::AttnDecodePagedMlaBatched => Purpose::AttendLatent { paged: true },
        Kernel::MoeRouterBatched => Purpose::Route,
        Kernel::MoeGroupedGateUp => Purpose::ExpertsIn(Precision::Single),
        Kernel::MoeGroupedGateUpHalf => Purpose::ExpertsIn(Precision::Half),
        Kernel::MoeGroupedGateUpQ4 => Purpose::ExpertsIn(Precision::Packed),
        Kernel::MoeGroupedDown => Purpose::ExpertsOut(Precision::Single),
        Kernel::MoeGroupedDownHalf => Purpose::ExpertsOut(Precision::Half),
        Kernel::MoeGroupedDownQ4 => Purpose::ExpertsOut(Precision::Packed),
        Kernel::MoeScatterAll => Purpose::CombineExperts,
        Kernel::MoeCountExperts => Purpose::CountRows,
        Kernel::MoePrefixSum => Purpose::PlaceRows,
        Kernel::MoeGatherRows => Purpose::CollectRows,
        Kernel::MoeScatterAdd => Purpose::ReturnRows,
        Kernel::ArgmaxBatched => Purpose::Pick,
        _ => Purpose::SingleRow,
    }
}

pub open spec fn of_half(half: bool) -> Precision {
    if half {
        Precision::Half
    } else {
        Precision::Single
    }
}

/// Precision of the expert weights of a source.
pub open spec fn of_source(source: ExpertSource) -> Precision {
    match source {
        ExpertSource::Q4 => Precision::Packed,
        ExpertSource::F16 => Precision::Half,
        ExpertSource::Resident => Precision::Single,
        ExpertSource::Prefetched => Precision::Single,
    }
}

/// What the one kernel of an operation has to compute, for an operation with one kernel.
pub open spec fn asks_for(op: Op) -> Option<Purpose> {
    match op {
        Op::Embed { copy, .. } => match copy {
            DeviceCopy::F32 => Some(Purpose::Gather(Precision::Single)),
            DeviceCopy::F16 => Some(Purpose::Gather(Precision::Half)),
            DeviceCopy::Q4 => None,
        },
        Op::RmsNorm { .. } => Some(Purpose::Normalize),
        Op::QkNorm { .. } => Some(Purpose::NormalizeHeads),
        Op::AddBias { .. } => Some(Purpose::Bias),
        Op::Rope { .. } => Some(Purpose::Rotate),
        Op::Add { .. } => Some(Purpose::Sum),
        Op::SiluMul { .. } => Some(Purpose::Activate),
        Op::Gemm { path, .. } => if path == GemmPath::GemvF16 {
            Some(Purpose::Multiply(Precision::Half))
        } else {
            None
        },
        Op::KvStore { half, .. } => Some(
            Purpose::Store { paged: false, precision: of_half(half) },
        ),
        Op::KvStorePaged { half, .. } => Some(
            Purpose::Store { paged: true, precision: of_half(half) },
        ),
        Op::AttnBatched { half, .. } => Some(
            Purpose::Attend { paged: false, precision: of_half(half) },
        ),
        Op::AttnPaged { half, .. } => Some(
            Purpose::Attend { paged: true, precision: of_half(half) },
        ),
        Op::AttnPrefillF16 { .. } => Some(Purpose::AttendRun),
        Op::MlaExtractKvLora { .. } => Some(Purpose::LatentPart),
        Op::MlaExtractKRope { .. } => Some(Purpose::RotaryPart),
        Op::MlaAssembleQ { .. } => Some(Purpose::AssembleQueries),
        Op::MlaStore { .. } => Some(Purpose::StoreLatent { paged: false }),
        Op::MlaStorePaged { .. } => Some(Purpose::StoreLatent { paged: true }),
        Op::MlaAttn { .. } => Some(Purpose::AttendLatent { paged: false }),
        Op::MlaAttnPaged { .. } => Some(Purpose::AttendLatent { paged: true }),
        Op::MoeRouter { .. } => Some(Purpose::Route),
        Op::MoeGroupedGateUp { source, .. } => Some(Purpose::ExpertsIn(of_source(source))),
        Op::MoeGroupedDown { source, .. } => Some(Purpose::ExpertsOut(of_source(source))),
        Op::MoeScatterAll { .. } => Some(Purpose::CombineExperts),
        Op::MoeCountExperts { .. } => Some(Purpose::CountRows),
        Op::MoePrefixSum { .. } => Some(Purpose::PlaceRows),
        Op::MoeGatherRows { .. } => Some(Purpose::CollectRows),
        Op::MoeScatterAdd { .. } => Some(Purpose::ReturnRows),
        _ => None,
    }
}

/// The library computes the operation, in single precision.
pub open spec fn plain_product(op: Op) -> bool {
    match op {
        Op::Gemm { path, .. } => path == GemmPath::BatchedF32,
        Op::ExpertGemm { source, .. } => source == ExpertSource::Resident || source
            == ExpertSource::Prefetched,
        _ => false,
    }
}

/// The library computes the operation, in half precision.
pub open spec fn half_product(op: Op) -> bool {
    match op {
        Op::Gemm { path, .. } => path == GemmPath::BatchedF16,
        Op::ExpertGemm { source, .. } => source == ExpertSource::F16,
        _ => false,
    }
}

/// Every operation starts what computes it: the kernel of its purpose, or the library product in
/// its precision, between a narrowing and a widening cast in half precision. Only operations
/// that ask for neither are left to others.
pub proof fn lemma_right_kernel(op: Op)
    ensures
        match dispatched(op) {
            Dispatch::Kernel(l) => asks_for(op) == Some(purpose(l.kernel)),
            Dispatch::Gemm(_) => plain_product(op),
            Dispatch::HalfGemm(before, _, after) => half_product(op) && purpose(before.kernel)
                == Purpose::Narrow && purpose(after.kernel) == Purpose::Widen,
            Dispatch::Other => asks_for(op) is None && !plain_product(op) && !half_product(op),
        },
{
}

/// Operations that ask for different things never start the same kernel.
pub proof fn lemma_different_kernels(a: Op, b: Op)
    requires
        asks_for(a) is Some,
        asks_for(b) is Some,
        asks_for(a) != asks_for(b),
    ensures
        dispatched(a) is Kernel,
        dispatched(b) is Kernel,
        dispatched(a)->Kernel_0.kernel != dispatched(b)->Kernel_0.kernel,
{
    lemma_right_kernel(a);
    lemma_right_kernel(b);
}

/// The entry point that computes each purpose of a step.
pub open spec fn entry_for(p: Purpose) -> Option<Seq<char>> {
    match p {
        Purpose::Gather(Precision::Single) => Some("embed_batched"@),
        Purpose::Gather(Precision::Half) => Some("embed_gather_f16"@),
        Purpose::Normalize => Some("rms_norm"@),
        Purpose::NormalizeHeads => Some("qk_norm"@),
        Purpose::Bias => Some("add_bias"@),
        Purpose::Rotate => Some("rope_batched"@),
        Purpose::Sum => Some("add"@),
        Purpose::Activate => Some("silu_mul"@),
        Purpose::Multiply(Precision::Half) => Some("gemv_f16"@),
        Purpose::Narrow => Some("cast_f32_f16"@),
        Purpose::Widen => Some("cast_f16_f32"@),
        Purpose::Store { paged: false, precision: Precision::Single } => Some("kv_store_batched"@),
        Purpose::Store { paged: false, precision: Precision::Half } => Some(
            "kv_store_batched_f16"@,
        ),
        Purpose::Store { paged: true, precision: Precision::Single } => Some("kv_store_paged"@),
        Purpose::Store { paged: true, precision: Precision::Half } => Some("kv_store_paged_f16"@),
        Purpose::Attend { paged: false, precision: Precision::Single } => Some(
            "attn_decode_batched"@,
        ),
        Purpose::Attend { paged: false, precision: Precision::Half } => Some(
            "attn_decode_batched_f16_gqa"@,
        ),
        Purpose::Attend { paged: true, precision: Precision::Single } => Some(
            "attn_decode_paged"@,
        ),
        Purpose::Attend { paged: true, precision: Precision::Half } => Some(
            "attn_decode_paged_f16_gqa"@,
        ),
        Purpose::AttendRun => Some("attn_prefill_f16"@),
        Purpose::LatentPart => Some("mla_extract_kv_lora"@),
        Purpose::RotaryPart => Some("mla_extract_k_rope"@),
        Purpose::AssembleQueries => Some("mla_assemble_q_batched"@),
        Purpose::StoreLatent { paged: false } => Some("mla_assemble_kv_batched"@),
        Purpose::StoreLatent { paged: true } => Some("kv_store_paged_mla"@),
        Purpose::AttendLatent { paged: false } => Some("mla_attn_decode_batched"@),
        Purpose::AttendLatent { paged: true } => Some("attn_decode_paged_mla_batched"@),
        Purpose::Route => Some("moe_router_batched"@),
        Purpose::ExpertsIn(Precision::Single) => Some("moe_grouped_gate_up"@),
        Purpose::ExpertsIn(Precision::Half) => Some("moe_grouped_gate_up_f16"@),
        Purpose::ExpertsIn(Precision::Packed) => Some("moe_grouped_gate_up_q4"@),
        Purpose::ExpertsOut(Precision::Single) => Some("moe_grouped_down"@),
        Purpose::ExpertsOut(Precision::Half) => Some("moe_grouped_down_f16"@),
        Purpose::ExpertsOut(Precision::Packed) => Some("moe_grouped_down_q4"@),
        Purpose::CombineExperts => Some("moe_scatter_all"@),
        Purpose::CountRows => Some("moe_count_experts"@),
        Purpose::PlaceRows => Some("moe_prefix_sum"@),
        Purpose::CollectRows => Some("moe_gather_rows"@),
        Purpose::ReturnRows => Some("moe_scatter_add"@),
        Purpose::Pick => Some("argmax_batched"@),
        _ => None,
    }
}

/// A kernel's entry point is the one that computes its purpose.
pub proof fn lemma_right_entry(k: Kernel)
    requires
        purpose(k) != Purpose::SingleRow,
    ensures
        entry_for(purpose(k)) == Some(entry_point(k)),
{
}

/// Threads of a launch in full blocks along the first dimension.
pub open spec fn threads(l: Launch) -> int {
    if l.block == 256 {
        l.grid.0 * 256
    } else {
        0
    }
}

/// One thread for each of `n` elements.
pub open spec fn thread_each(l: Launch, n: int) -> bool {
    &&& n <= threads(l)
    &&& n > 0 ==> threads(l) < n + 256
    &&& l.grid.1 == 1
    &&& l.grid.2 == 1
    &&& l.shared == 0
}

/// One full block for each of `n` items.
pub open spec fn block_each(l: Launch, n: int) -> bool {
    l.grid.0 == n && l.grid.1 == 1 && l.grid.2 == 1 && l.block == 256
}

/// The launch has a thread or block for each piece of the operation's work, and the shared
/// memory that the kernel uses.
pub open spec fn enough(op: Op, l: Launch) -> bool {
    match op {
        Op::Embed { cols, rows, .. } => cols <= threads(l) < cols + 256 && l.grid.1 == rows
            && l.grid.2 == 1,
        Op::RmsNorm { rows, .. } => block_each(l, rows as int) && l.shared == 0,
        Op::QkNorm { rows, heads, .. } => l.grid.0 == rows && l.grid.1 == heads && l.grid.2 == 1
            && l.block == 256 && l.shared == 0,
        Op::AddBias { rows, cols, .. } => thread_each(l, rows * cols),
        Op::Rope { rows, heads, kv_heads, dim, .. } => rows * heads * dim <= threads(l) && rows
            * kv_heads * dim <= threads(l),
        Op::Add { n, .. } => thread_each(l, n as int),
        Op::SiluMul { n, .. } => thread_each(l, n as int),
        Op::Gemm { n, k, rows, .. } => n <= l.grid.0 * 8 < n + 8 && l.grid.1 == rows && l.block
            == 256 && l.shared == k * 4,
        Op::KvStore { rows, kv_heads, dim, .. } => thread_each(l, rows * kv_heads * dim),
        Op::KvStorePaged { rows, kv_heads, dim, .. } => thread_each(l, rows * kv_heads * dim),
        Op::AttnBatched { half, rows, heads, kv_heads, max_seq, .. } => if half {
            block_each(l, rows * kv_heads) && l.shared * kv_heads == heads * 4096
        } else {
            block_each(l, rows * heads) && l.shared == (max_seq + 256) * 4
        },
        Op::AttnPaged { rows, heads, tokens_per_page, max_pages, .. } => block_each(
            l,
            rows * heads,
        ) && l.shared == (max_pages * tokens_per_page + 256) * 4,
        Op::AttnPrefillF16 { heads, .. } => block_each(l, heads as int) && l.shared == 0,
        Op::MlaExtractKvLora { rows, rank, .. } => thread_each(l, rows * rank),
        Op::MlaExtractKRope { rows, rope, .. } => thread_each(l, rows * rope),
        Op::MlaAssembleQ { rows, heads, nope, rope } => thread_each(
            l,
            rows * heads * (nope + rope),
        ),
        Op::MlaStore { rows, heads, nope, rope, v_dim, .. } => rows * heads * (nope + rope)
            <= threads(l) && rows * heads * v_dim <= threads(l),
        Op::MlaStorePaged { rows, heads, nope, rope, v_dim, .. } => rows * heads * (nope + rope)
            <= threads(l) && rows * heads * v_dim <= threads(l),
        Op::MlaAttn { rows, heads, max_seq, .. } => block_each(l, rows * heads) && l.shared == (
        max_seq + 256) * 4,
        Op::MlaAttnPaged { rows, heads, tokens_per_page, max_pages, .. } => block_each(
            l,
            rows * heads,
        ) && l.shared == (max_pages * tokens_per_page + 256) * 4,
        Op::MoeRouter { experts, rows, .. } => block_each(l, rows as int) && l.shared == experts
            * 4,
        Op::MoeGroupedGateUp { rows, inter, .. } => l.grid.0 == rows && l.grid.1 == inter
            && l.block == 128,
        Op::MoeGroupedDown { rows, d, .. } => l.grid.0 == rows && l.grid.1 == d && l.block == 128,
        Op::MoeScatterAll { rows, d, .. } => rows * d <= threads(l),
        Op::MoeCountExperts { rows, topk } => thread_each(l, rows * topk),
        Op::MoePrefixSum { experts } => experts <= threads(l) && l.grid.0 == 1,
        Op::MoeGatherRows { rows, topk, .. } => thread_each(l, rows * topk),
        Op::MoeScatterAdd { rows, d, .. } => thread_each(l, rows * d),
        _ => true,
    }
}

proof fn lemma_rope_width(rows: int, heads: int, kv_heads: int, dim: int)
    requires
        0 <= rows,
        0 <= dim,
        0 <= heads,
        0 <= kv_heads,
    ensures
        0 <= rows * heads * dim <= rows * vstd::math::max(heads, kv_heads) * dim,
        0 <= rows * kv_heads * dim <= rows * vstd::math::max(heads, kv_heads) * dim,
{
    let m = vstd::math::max(heads, kv_heads);
    assert(0 <= rows * heads * dim <= rows * m * dim) by (nonlinear_arith)
        requires
            0 <= rows,
            0 <= dim,
            0 <= heads <= m,
    ;
    assert(0 <= rows * kv_heads * dim <= rows * m * dim) by (nonlinear_arith)
        requires
            0 <= rows,
            0 <= dim,
            0 <= kv_heads <= m,
    ;
}

proof fn lemma_products(a: int, b: int, c: int)
    requires
        0 <= a,
        0 <= b,
        0 <= c,
    ensures
        0 <= a * b,
        0 <= a * b * c,
{
    assert(0 <= a * b && 0 <= a * b * c) by (nonlinear_arith)
        requires
            0 <= a,
            0 <= b,
            0 <= c,
    ;
}

/// No piece of work is left without a thread.
pub proof fn lemma_enough(op: Op)
    requires
        in_range(op),
        refused(op) is None,
        dispatched(op) is Kernel,
    ensures
        enough(op, dispatched(op)->Kernel_0),
{
    match op {
        Op::AddBias { rows, cols, .. } => {
            lemma_products(rows as int, cols as int, 0);
        },
        Op::Rope { rows, heads, kv_heads, dim, .. } => {
            lemma_rope_width(rows as int, heads as int, kv_heads as int, dim as int);
        },
        Op::KvStore { rows, kv_heads, dim, .. } | Op::KvStorePaged { rows, kv_heads, dim, .. } => {
            lemma_products(rows as int, kv_heads as int, dim as int);
        },
        Op::AttnBatched { half, rows, heads, kv_heads, .. } => {
            if half {
                lemma_products(rows as int, kv_heads as int, 0);
                let (h, k) = (heads as int, kv_heads as int);
                vstd::arithmetic::div_mod::lemma_fundamental_div_mod(h, k);
                let q = h / k;
                assert(0 <= q <= 16) by {
                    vstd::arithmetic::div_mod::lemma_div_pos_is_pos(h, k);
                }
                assert(q * 4096 * k == h * 4096) by (nonlinear_arith)
                    requires
                        h == k * q,
                ;
            } else {
                lemma_products(rows as int, heads as int, 0);
            }
        },
        Op::AttnPaged { rows, heads, tokens_per_page, max_pages, .. } => {
            lemma_products(rows as int, heads as int, 0);
            lemma_products(max_pages as int, tokens_per_page as int, 0);
        },
        Op::MlaExtractKvLora { rows, rank, .. } => {
            lemma_products(rows as int, rank as int, 0);
        },
        Op::MlaExtractKRope { rows, rope, .. } => {
            lemma_products(rows as int, rope as int, 0);
        },
        Op::MlaAssembleQ { rows, heads, nope, rope } => {
            lemma_products(rows as int, heads as int, nope + rope);
        },
        Op::MlaStore { rows, heads, nope, rope, v_dim, .. }
        | Op::MlaStorePaged { rows, heads, nope, rope, v_dim, .. } => {
            lemma_products(rows as int, heads as int, nope + rope);
            lemma_products(rows as int, heads as int, v_dim as int);
        },
        Op::MlaAttn { rows, heads, .. } => {
            lemma_products(rows as int, heads as int, 0);
        },
        Op::MlaAttnPaged { rows, heads, tokens_per_page, max_pages, .. } => {
            lemma_products(rows as int, heads as int, 0);
            lemma_products(max_pages as int, tokens_per_page as int, 0);
        },
        Op::MoeScatterAll { rows, d, .. } | Op::MoeScatterAdd { rows, d, .. } => {
            lemma_products(rows as int, d as int, 0);
        },
        Op::MoeCountExperts { rows, topk } | Op::MoeGatherRows { rows, topk, .. } => {
            lemma_products(rows as int, topk as int, 0);
        },
        _ => {},
    }
}

/// Rows, outputs and inputs of a product.
pub open spec fn product_dims(op: Op) -> (int, int, int) {
    match op {
        Op::Gemm { rows, n, k, .. } => (rows as int, n as int, k as int),
        Op::ExpertGemm { rows, n, k, .. } => (rows as int, n as int, k as int),
        _ => (0, 0, 0),
    }
}

/// The library product of an operation.
pub open spec fn library_call(op: Op) -> GemmCall {
    match dispatched(op) {
        Dispatch::HalfGemm(_, g, _) => g,
        Dispatch::Gemm(g) => g,
        _ => arbitrary(),
    }
}

/// A library product has an output for each row and each row of the weights; output `o` of row
/// `r` stands at `r * n + o` and multiplies the input row at `r * k` with the weight row at
/// `o * k`.
pub proof fn lemma_library_product(op: Op, r: int, o: int, p: int)
    requires
        plain_product(op) || half_product(op),
    ensures
        ({
            let (rows, n, k) = product_dims(op);
            let g = library_call(op);
            &&& g.weights_first
            &&& (g.m, g.n, g.k) == (n as i32, rows as i32, k as i32)
            &&& g.out_at(o, r) == r * n + o
            &&& g.a_at(o, p) == o * k + p
            &&& g.b_at(p, r) == r * k + p
        }),
{
    let (rows, n, k) = product_dims(op);
    assert(p + o * k == o * k + p);
    assert(o + r * n == r * n + o);
}

/// The casts around a half-precision product cover its inputs and its outputs.
pub proof fn lemma_casts(op: Op)
    requires
        in_range(op),
        half_product(op),
    ensures
        ({
            let (rows, n, k) = product_dims(op);
            &&& dispatched(op) is HalfGemm
            &&& thread_each(dispatched(op)->HalfGemm_0, rows * k)
            &&& thread_each(dispatched(op)->HalfGemm_2, rows * n)
        }),
{
    let (rows, n, k) = product_dims(op);
    lemma_products(rows, k, 0);
    lemma_products(rows, n, 0);
}

/// Numbers that the threads of an operation's kernel work on, where it has a thread for each.
pub open spec fn elements(op: Op) -> int {
    match op {
        Op::Gemm { path, n, k, rows, .. } => if path == GemmPath::BatchedF16 {
            vstd::math::max(rows * k, rows * n)
        } else {
            0
        },
        Op::ExpertGemm { source, n, k, rows, .. } => if source == ExpertSource::F16 {
            vstd::math::max(rows * k, rows * n)
        } else {
            0
        },
        Op::AddBias { rows, cols, .. } => rows * cols,
        Op::Rope { rows, heads, kv_heads, dim, .. } => vstd::math::max(
            rows * heads * dim,
            rows * kv_heads * dim,
        ),
        Op::KvStore { rows, kv_heads, dim, .. } => rows * kv_heads * dim,
        Op::KvStorePaged { rows, kv_heads, dim, .. } => rows * kv_heads * dim,
        Op::AttnBatched { half, rows, heads, kv_heads, .. } => if half {
            rows * kv_heads
        } else {
            rows * heads
        },
        Op::AttnPaged { rows, heads, .. } => rows * heads,
        Op::MlaExtractKvLora { rows, rank, .. } => rows * rank,
        Op::MlaExtractKRope { rows, rope, .. } => rows * rope,
        Op::MlaAssembleQ { rows, heads, nope, rope } => rows * heads * (nope + rope),
        Op::MlaStore { rows, heads, nope, rope, v_dim, .. } => vstd::math::max(
            rows * heads * (nope + rope),
            rows * heads * v_dim,
        ),
        Op::MlaStorePaged { rows, heads, nope, rope, v_dim, .. } => vstd::math::max(
            rows * heads * (nope + rope),
            rows * heads * v_dim,
        ),
        Op::MlaAttn { rows, heads, .. } => rows * heads,
        Op::MlaAttnPaged { rows, heads, .. } => rows * heads,
        Op::MoeScatterAll { rows, d, .. } => rows * d,
        Op::MoeCountExperts { rows, topk } => rows * topk,
        Op::MoeGatherRows { rows, topk, .. } => rows * topk,
        Op::MoeScatterAdd { rows, d, .. } => rows * d,
        _ => 0,
    }
}

/// Numbers that a block of the operation's kernel keeps in shared memory.
pub open spec fn kept_numbers(op: Op) -> int {
    match op {
        Op::AttnBatched { half, max_seq, .. } => if half {
            0
        } else {
            max_seq + 256
        },
        Op::AttnPaged { tokens_per_page, max_pages, .. } => max_pages * tokens_per_page + 256,
        Op::MlaAttn { max_seq, .. } => max_seq + 256,
        Op::MlaAttnPaged { tokens_per_page, max_pages, .. } => max_pages * tokens_per_page + 256,
        Op::MoeRouter { experts, .. } => experts as int,
        _ => 0,
    }
}

/// Every dimension of the operation is positive.
pub open spec fn proper(op: Op) -> bool {
    match op {
        Op::Embed { cols, rows, .. } => cols > 0 && rows > 0,
        Op::RmsNorm { rows, cols, .. } => rows > 0 && cols > 0,
        Op::Gemm { n, k, rows, .. } => n > 0 && k > 0 && rows > 0,
        Op::ExpertGemm { n, k, rows, .. } => n > 0 && k > 0 && rows > 0,
        Op::AddBias { rows, cols, .. } => rows > 0 && cols > 0,
        Op::QkNorm { rows, heads, .. } => rows > 0 && heads > 0,
        Op::Rope { rows, heads, kv_heads, dim, .. } => rows > 0 && heads > 0 && kv_heads > 0 && dim
            > 0,
        Op::Add { n, .. } => n > 0,
        Op::SiluMul { n, .. } => n > 0,
        Op::KvStore { rows, kv_heads, dim, .. } => rows > 0 && kv_heads > 0 && dim > 0,
        Op::KvStorePaged { rows, kv_heads, dim, .. } => rows > 0 && kv_heads > 0 && dim > 0,
        Op::AttnBatched { rows, heads, kv_heads, max_seq, .. } => rows > 0 && heads > 0 && kv_heads
            > 0 && max_seq > 0,
        Op::AttnPaged { rows, heads, tokens_per_page, max_pages, .. } => rows > 0 && heads > 0
            && tokens_per_page > 0 && max_pages > 0,
        Op::AttnPrefillF16 { heads, .. } => heads > 0,
        Op::MlaExtractKvLora { rows, rank, .. } => rows > 0 && rank > 0,
        Op::MlaExtractKRope { rows, rope, .. } => rows > 0 && rope > 0,
        Op::MlaAssembleQ { rows, heads, nope, rope } => rows > 0 && heads > 0 && nope > 0 && rope
            > 0,
        Op::MlaStore { rows, heads, nope, rope, v_dim, .. } => rows > 0 && heads > 0 && nope > 0
            && rope > 0 && v_dim > 0,
        Op::MlaStorePaged { rows, heads, nope, rope, v_dim, .. } => rows > 0 && heads > 0 && nope
            > 0 && rope > 0 && v_dim > 0,
        Op::MlaAttn { rows, heads, max_seq, .. } => rows > 0 && heads > 0 && max_seq > 0,
        Op::MlaAttnPaged { rows, heads, tokens_per_page, max_pages, .. } => rows > 0 && heads > 0
            && tokens_per_page > 0 && max_pages > 0,
        Op::MoeRouter { experts, rows, .. } => experts > 0 && rows > 0,
        Op::MoeGroupedGateUp { rows, inter, .. } => rows > 0 && inter > 0,
        Op::MoeGroupedDown { rows, d, .. } => rows > 0 && d > 0,
        Op::MoeScatterAll { rows, d, .. } => rows > 0 && d > 0,
        Op::MoeCountExperts { rows, topk } => rows > 0 && topk > 0,
        Op::MoePrefixSum { experts } => experts > 0,
        Op::MoeGatherRows { rows, topk, .. } => rows > 0 && topk > 0,
        Op::MoeScatterAdd { rows, d, .. } => rows > 0 && d > 0,
        _ => true,
    }
}

/// The kernel's own limits: the row kernel stages up to 12288 inputs, and one block counts up to
/// 256 experts.
pub open spec fn within_limits(op: Op) -> bool {
    match op {
        Op::Gemm { path, k, .. } => path == GemmPath::GemvF16 ==> k <= 12288,
        Op::MoePrefixSum { experts } => experts <= 256,
        _ => true,
    }
}

proof fn lemma_factors(a: int, b: int, c: int)
    requires
        0 < a,
        0 < b,
        0 < c,
    ensures
        a * b <= a * b * c,
        0 < a * b,
{
    assert(0 < a * b) by (nonlinear_arith)
        requires
            0 < a,
            0 < b,
    ;
    let ab = a * b;
    assert(ab <= ab * c) by (nonlinear_arith)
        requires
            0 < ab,
            0 < c,
    ;
}

/// An operation with proper dimensions is started whenever its numbers can be counted with 31
/// bits, its shared memory leaves some room in as many bytes, and it keeps to the kernel's own
/// limits.
pub proof fn lemma_startable(op: Op)
    requires
        proper(op),
        elements(op) <= 0x7fff_ffff,
        kept_numbers(op) * 4 <= 0x7fff_0000,
        within_limits(op),
    ensures
        in_range(op),
{
    match op {
        Op::Rope { rows, heads, kv_heads, dim, .. } => {
            let m = vstd::math::max(heads as int, kv_heads as int);
            lemma_factors(rows as int, m, dim as int);
        },
        Op::KvStore { rows, kv_heads, dim, .. } | Op::KvStorePaged { rows, kv_heads, dim, .. } => {
            lemma_factors(rows as int, kv_heads as int, dim as int);
        },
        Op::MlaAssembleQ { rows, heads, nope, rope } => {
            lemma_factors(rows as int, heads as int, nope + rope);
            lemma_wide(rows as int, heads as int, nope + rope);
        },
        Op::MlaStore { rows, heads, nope, rope, v_dim, .. }
        | Op::MlaStorePaged { rows, heads, nope, rope, v_dim, .. } => {
            lemma_factors(rows as int, heads as int, nope + rope);
            lemma_wide(rows as int, heads as int, nope + rope);
            lemma_factors(rows as int, heads as int, v_dim as int);
        },
        _ => {},
    }
}

proof fn lemma_wide(a: int, b: int, c: int)
    requires
        0 < a,
        0 < b,
        0 < c,
    ensures
        c <= a * b * c,
{
    lemma_factors(a, b, c);
    let ab = a * b;
    assert(c <= ab * c) by (nonlinear_arith)
        requires
            0 < ab,
            0 < c,
    ;
}

/// Nothing is started whose numbers cannot be counted with 31 bits, or beyond the kernel's own
/// limits.
pub proof fn lemma_started_fits(op: Op)
    requires
        in_range(op),
        refused(op) is None,
    ensures
        elements(op) <= 0x7fff_ffff,
        within_limits(op),
{
    match op {
        Op::Rope { rows, heads, kv_heads, dim, .. } => {
            lemma_rope_width(rows as int, heads as int, kv_heads as int, dim as int);
        },
        _ => {},
    }
}

/// Half-precision decode attention is refused exactly where its kernel cannot split the heads: the
/// query heads of a group are a whole number from one to sixteen, and a head divides 256 and is a
/// multiple of eight. Attention of a run is refused beyond 64 rows or dimensions, and no other
/// operation is refused.
pub proof fn lemma_refusals(op: Op)
    ensures
        match op {
            Op::AttnBatched { half, heads, kv_heads, dim, .. } => kv_heads > 0 && half ==> (
            refused(op) is None <==> {
                &&& heads as int % kv_heads as int == 0
                &&& 1 <= heads as int / kv_heads as int <= 16
                &&& dim > 0 && dim <= 256 && 256int % dim as int == 0 && dim as int % 8 == 0
            }),
            Op::AttnPrefillF16 { run, dim, .. } => refused(op) is None <==> run.count <= 64 && dim
                <= 64,
            _ => refused(op) is None,
        },
        op matches Op::AttnBatched { half: false, .. } ==> refused(op) is None,
{
}

/// The length of a name and its letters at three places, blank where it is shorter.
pub open spec fn letters(name: Seq<char>) -> (int, char, char, char) {
    let at = |i: int|
        if i < name.len() {
            name[i]
        } else {
            ' '
        };
    (name.len() as int, at(7), at(13), at(15))
}

spec fn known_letters(k: Kernel) -> (int, char, char, char) {
    match k {
        Kernel::EmbedGather => (12, 'a', ' ', ' '),
        Kernel::RmsNorm => (8, 'm', ' ', ' '),
        Kernel::QkNorm => (7, ' ', ' ', ' '),
        Kernel::SiluMul => (8, 'l', ' ', ' '),
        Kernel::Add => (3, ' ', ' ', ' '),
        Kernel::AddBias => (8, 's', ' ', ' '),
        Kernel::KvStore => (8, 'e', ' ', ' '),
        Kernel::AttnDecode => (11, 'c', ' ', ' '),
        Kernel::MlaAssembleQ => (14, 'e', 'q', ' '),
        Kernel::MlaAssembleKv => (15, 'e', 'k', ' '),
        Kernel::MlaAttnDecode => (15, 'n', 'd', ' '),
        Kernel::MlaAssembleQBatched => (22, 'e', 'q', 'b'),
        Kernel::MlaExtractKvLora => (19, 'r', 'v', 'l'),
        Kernel::MlaExtractKRope => (18, 'r', '_', 'o'),
        Kernel::MlaAssembleKvBatched => (23, 'e', 'k', '_'),
        Kernel::MlaAttnDecodeBatched => (23, 'n', 'd', '_'),
        Kernel::Rope => (4, ' ', ' ', ' '),
        Kernel::EmbedBatched => (13, 'a', ' ', ' '),
        Kernel::RopeBatched => (12, 't', ' ', ' '),
        Kernel::KvStoreBatched => (16, 'e', 'h', 'd'),
        Kernel::AttnDecodeBatched => (19, 'c', 'a', 'c'),
        Kernel::KvStorePaged => (14, 'e', 'd', ' '),
        Kernel::AttnDecodePaged => (17, 'c', 'a', 'e'),
        Kernel::KvStorePagedHalf => (18, 'e', 'd', 'f'),
        Kernel::AttnDecodePagedHalfGqa => (25, 'c', 'a', 'e'),
        Kernel::KvStorePagedMla => (18, 'e', 'd', 'm'),
        Kernel::AttnDecodePagedMlaBatched => (29, 'c', 'a', 'e'),
        Kernel::ArgmaxBatched => (14, 'b', 'd', ' '),
        Kernel::CastToHalf => (12, '2', ' ', ' '),
        Kernel::CastFromHalf => (12, '6', ' ', ' '),
        Kernel::GemvHalf => (8, '6', ' ', ' '),
        Kernel::EmbedGatherHalf => (16, 'a', 'f', '6'),
        Kernel::KvStoreBatchedHalf => (20, 'e', 'h', 'd'),
        Kernel::AttnDecodeBatchedHalfGqa => (27, 'c', 'a', 'c'),
        Kernel::AttnPrefillHalf => (16, 'e', 'f', '6'),
        Kernel::MoeRouter => (10, 't', ' ', ' '),
        Kernel::MoeGatherWeights => (18, 'h', 'i', 'h'),
        Kernel::MoeAccumulate => (14, 'u', 'e', ' '),
        Kernel::MoeRouterBatched => (18, 't', 't', 'h'),
        Kernel::MoeCountExperts => (17, 'n', 'e', 't'),
        Kernel::MoeGatherRows => (15, 'h', 'w', ' '),
        Kernel::MoeScatterAdd => (15, 't', 'd', ' '),
        Kernel::MoePrefixSum => (14, 'f', 'm', ' '),
        Kernel::MoeGroupedGateUp => (19, 'u', 'a', 'e'),
        Kernel::MoeGroupedGateUpHalf => (23, 'u', 'a', 'e'),
        Kernel::MoeGroupedDown => (16, 'u', 'o', 'n'),
        Kernel::MoeGroupedDownHalf => (20, 'u', 'o', 'n'),
        Kernel::MoeGroupedGateUpQ4 => (22, 'u', 'a', 'e'),
        Kernel::MoeGroupedDownQ4 => (19, 'u', 'o', 'n'),
        Kernel::MoeScatterAll => (15, 't', 'l', ' '),
        Kernel::AttnDecodePagedMla => (21, 'c', 'a', 'e'),
    }
}

proof fn lemma_letters(k: Kernel)
    ensures
        letters(entry_point(k)) == known_letters(k),
{
    match k {
        Kernel::EmbedGather => {
            reveal_strlit("embed_gather");
        },
        Kernel::RmsNorm => {
            reveal_strlit("rms_norm");
        },
        Kernel::QkNorm => {
            reveal_strlit("qk_norm");
        },
        Kernel::SiluMul => {
            reveal_strlit("silu_mul");
        },
        Kernel::Add => {
            reveal_strlit("add");
        },
        Kernel::AddBias => {
            reveal_strlit("add_bias");
        },
        Kernel::KvStore => {
            reveal_strlit("kv_store");
        },
        Kernel::AttnDecode => {
            reveal_strlit("attn_decode");
        },
        Kernel::MlaAssembleQ => {
            reveal_strlit("mla_assemble_q");
        },
        Kernel::MlaAssembleKv => {
            reveal_strlit("mla_assemble_kv");
        },
        Kernel::MlaAttnDecode => {
            reveal_strlit("mla_attn_decode");
        },
        Kernel::MlaAssembleQBatched => {
            reveal_strlit("mla_assemble_q_batched");
        },
        Kernel::MlaExtractKvLora => {
            reveal_strlit("mla_extract_kv_lora");
        },
        Kernel::MlaExtractKRope => {
            reveal_strlit("mla_extract_k_rope");
        },
        Kernel::MlaAssembleKvBatched => {
            reveal_strlit("mla_assemble_kv_batched");
        },
        Kernel::MlaAttnDecodeBatched => {
            reveal_strlit("mla_attn_decode_batched");
        },
        Kernel::Rope => {
            reveal_strlit("rope");
        },
        Kernel::EmbedBatched => {
            reveal_strlit("embed_batched");
        },
        Kernel::RopeBatched => {
            reveal_strlit("rope_batched");
        },
        Kernel::KvStoreBatched => {
            reveal_strlit("kv_store_batched");
        },
        Kernel::AttnDecodeBatched => {
            reveal_strlit("attn_decode_batched");
        },
        Kernel::KvStorePaged => {
            reveal_strlit("kv_store_paged");
        },
        Kernel::AttnDecodePaged => {
            reveal_strlit("attn_decode_paged");
        },
        Kernel::KvStorePagedHalf => {
            reveal_strlit("kv_store_paged_f16");
        },
        Kernel::AttnDecodePagedHalfGqa => {
            reveal_strlit("attn_decode_paged_f16_gqa");
        },
        Kernel::KvStorePagedMla => {
            reveal_strlit("kv_store_paged_mla");
        },
        Kernel::AttnDecodePagedMlaBatched => {
            reveal_strlit("attn_decode_paged_mla_batched");
        },
        Kernel::ArgmaxBatched => {
            reveal_strlit("argmax_batched");
        },
        Kernel::CastToHalf => {
            reveal_strlit("cast_f32_f16");
        },
        Kernel::CastFromHalf => {
            reveal_strlit("cast_f16_f32");
        },
        Kernel::GemvHalf => {
            reveal_strlit("gemv_f16");
        },
        Kernel::EmbedGatherHalf => {
            reveal_strlit("embed_gather_f16");
        },
        Kernel::KvStoreBatchedHalf => {
            reveal_strlit("kv_store_batched_f16");
        },
        Kernel::AttnDecodeBatchedHalfGqa => {
            reveal_strlit("attn_decode_batched_f16_gqa");
        },
        Kernel::AttnPrefillHalf => {
            reveal_strlit("attn_prefill_f16");
        },
        Kernel::MoeRouter => {
            reveal_strlit("moe_router");
        },
        Kernel::MoeGatherWeights => {
            reveal_strlit("moe_gather_weights");
        },
        Kernel::MoeAccumulate => {
            reveal_strlit("moe_accumulate");
        },
        Kernel::MoeRouterBatched => {
            reveal_strlit("moe_router_batched");
        },
        Kernel::MoeCountExperts => {
            reveal_strlit("moe_count_experts");
        },
        Kernel::MoeGatherRows => {
            reveal_strlit("moe_gather_rows");
        },
        Kernel::MoeScatterAdd => {
            reveal_strlit("moe_scatter_add");
        },
        Kernel::MoePrefixSum => {
            reveal_strlit("moe_prefix_sum");
        },
        Kernel::MoeGroupedGateUp => {
            reveal_strlit("moe_grouped_gate_up");
        },
        Kernel::MoeGroupedGateUpHalf => {
            reveal_strlit("moe_grouped_gate_up_f16");
        },
        Kernel::MoeGroupedDown => {
            reveal_strlit("moe_grouped_down");
        },
        Kernel::MoeGroupedDownHalf => {
            reveal_strlit("moe_grouped_down_f16");
        },
        Kernel::MoeGroupedGateUpQ4 => {
            reveal_strlit("moe_grouped_gate_up_q4");
        },
        Kernel::MoeGroupedDownQ4 => {
            reveal_strlit("moe_grouped_down_q4");
        },
        Kernel::MoeScatterAll => {
            reveal_strlit("moe_scatter_all");
        },
        Kernel::AttnDecodePagedMla => {
            reveal_strlit("attn_decode_paged_mla");
        },
    }
}

/// Different kernels have different entry points.
pub proof fn lemma_entry_points_differ(a: Kernel, b: Kernel)
    requires
        a != b,
    ensures
        entry_point(a) != entry_point(b),
{
    lemma_letters(a);
    lemma_letters(b);
    assert(known_letters(a) != known_letters(b));
}

} // verus!
