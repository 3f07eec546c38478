//! How the operations of a forward pass are started.

use vstd::prelude::*;

use crate::device::DeviceCopy;
use crate::device::ExpertSource;
use crate::device::GemmPath;
use crate::device::Op;
use crate::kernels::blocks_for;
use crate::kernels::gqa_supported;
use crate::kernels::per_element;
use crate::kernels::GemmCall;
use crate::kernels::HipKernels;
use crate::kernels::Kernel;
use crate::kernels::Launch;
use crate::kernels::LaunchError;
use crate::kernels::BLOCK;

verus! {

/// Scores whose bytes, with the reduction scratch, are a 32-bit count.
pub const MAX_SCORES: i32 = 536_870_655;

/// Widest row that the half-precision GEMV stages.
pub const MAX_STAGED: i32 = 12_288;

/// How one operation is started.
#[derive(Debug, Clone, Copy, PartialEq, Eq)]
pub enum Dispatch {
    Kernel(Launch),
    /// A library product.
    Gemm(GemmCall),
    /// A library product between a cast of its input and a cast of its result.
    HalfGemm(Launch, GemmCall, Launch),
    /// Not a kernel of the model: copies, marks, packed and linear-attention kernels.
    Other,
}

pub open spec fn fits2(a: int, b: int) -> bool {
    0 <= a && 0 <= b && a * b <= i32::MAX
}

pub open spec fn fits3(a: int, b: int, c: int) -> bool {
    fits2(a, b) && 0 <= c && a * b * c <= i32::MAX
}

/// A head of `nope + rope` dimensions fits, for all rows and heads.
pub open spec fn head_fits(rows: int, heads: int, nope: int, rope: int) -> bool {
    &&& 0 <= nope
    &&& 0 <= rope
    &&& nope + rope <= i32::MAX
    &&& fits3(rows, heads, nope + rope)
}

/// The scores of a paged context, in bytes, fit.
pub open spec fn scores_fit(max_pages: int, tokens_per_page: int) -> bool {
    0 <= max_pages && 0 <= tokens_per_page && max_pages * tokens_per_page <= MAX_SCORES
}

pub open spec fn gate_up_kernel(source: ExpertSource) -> Kernel {
    match source {
        ExpertSource::Q4 => Kernel::MoeGroupedGateUpQ4,
        ExpertSource::F16 => Kernel::MoeGroupedGateUpHalf,
        _ => Kernel::MoeGroupedGateUp,
    }
}

pub open spec fn down_kernel(source: ExpertSource) -> Kernel {
    match source {
        ExpertSource::Q4 => Kernel::MoeGroupedDownQ4,
        ExpertSource::F16 => Kernel::MoeGroupedDownHalf,
        _ => Kernel::MoeGroupedDown,
    }
}

/// The product of `rows` rows with an `[n, k]` weight matrix.
pub open spec fn batched_call(rows: i32, n: i32, k: i32) -> GemmCall {
    GemmCall {
        transpose_a: true,
        transpose_b: false,
        m: n,
        n: rows,
        k,
        weights_first: true,
        lda: k,
        ldb: k,
        ldc: n,
    }
}

pub open spec fn half_gemm(rows: i32, n: i32, k: i32) -> Dispatch {
    Dispatch::HalfGemm(
        per_element(Kernel::CastToHalf, rows * k),
        batched_call(rows, n, k),
        per_element(Kernel::CastFromHalf, rows * n),
    )
}

/// The dimensions of projections are within what the kernels take.
pub open spec fn product_in_range(op: Op) -> bool {
    match op {
        Op::Gemm { path: GemmPath::GemvF16, n, k, rows, .. } => 0 <= n && 0 <= rows && 0 <= k
            <= MAX_STAGED,
        Op::Gemm { path: GemmPath::BatchedF16, n, k, rows, .. } => fits2(rows as int, k as int)
            && fits2(rows as int, n as int),
        Op::ExpertGemm { source: ExpertSource::F16, n, k, rows, .. } => fits2(
            rows as int,
            k as int,
        ) && fits2(rows as int, n as int),
        _ => true,
    }
}

/// How projections are started.
pub open spec fn product_start(op: Op) -> Dispatch {
    match op {
        Op::Gemm { path: GemmPath::GemvF16, n, k, rows, .. } => Dispatch::Kernel(
            Launch {
                kernel: Kernel::GemvHalf,
                grid: (((n + 7) / 8) as u32, rows as u32, 1),
                block: BLOCK,
                shared: (k * 4) as u32,
            },
        ),
        Op::Gemm { path: GemmPath::BatchedF16, n, k, rows, .. } => half_gemm(rows, n, k),
        Op::Gemm { path: GemmPath::BatchedF32, n, k, rows, .. } => Dispatch::Gemm(
            batched_call(rows, n, k),
        ),
        Op::ExpertGemm { source: ExpertSource::F16, n, k, rows, .. } => half_gemm(rows, n, k),
        Op::ExpertGemm { source: ExpertSource::Resident, n, k, rows, .. }
        | Op::ExpertGemm { source: ExpertSource::Prefetched, n, k, rows, .. } => Dispatch::Gemm(
            batched_call(rows, n, k),
        ),
        _ => Dispatch::Other,
    }
}

/// The dimensions of row-wise operations are within what the kernels take.
pub open spec fn row_in_range(op: Op) -> bool {
    match op {
        Op::Embed { copy: DeviceCopy::F32, cols, rows } => 0 <= cols && 0 <= rows,
        Op::Embed { copy: DeviceCopy::F16, cols, rows } => 0 <= cols && 0 <= rows,
        Op::RmsNorm { rows, .. } => 0 <= rows,
        Op::AddBias { rows, cols, .. } => fits2(rows as int, cols as int),
        Op::QkNorm { rows, heads, .. } => 0 <= rows && 0 <= heads,
        Op::Rope { rows, heads, kv_heads, dim, .. } => 0 <= heads
            && 0 <= kv_heads
            && fits3(rows as int, vstd::math::max(heads as int, kv_heads as int), dim as int),
        Op::Add { n, .. } => 0 <= n,
        Op::SiluMul { n, .. } => 0 <= n,
        _ => true,
    }
}

/// How row-wise operations are started.
pub open spec fn row_start(op: Op) -> Dispatch {
    match op {
        Op::Embed { copy: DeviceCopy::F32, cols, rows } => Dispatch::Kernel(
            Launch {
                kernel: Kernel::EmbedBatched,
                grid: (blocks_for(cols as int) as u32, rows as u32, 1),
                block: BLOCK,
                shared: 0,
            },
        ),
        Op::Embed { copy: DeviceCopy::F16, cols, rows } => Dispatch::Kernel(
            Launch {
                kernel: Kernel::EmbedGatherHalf,
                grid: (blocks_for(cols as int) as u32, rows as u32, 1),
                block: BLOCK,
                shared: 0,
            },
        ),
        Op::RmsNorm { rows, .. } => Dispatch::Kernel(
            Launch {
                kernel: Kernel::RmsNorm,
                grid: (rows as u32, 1, 1),
                block: BLOCK,
                shared: 0,
            },
        ),
        Op::AddBias { rows, cols, .. } => Dispatch::Kernel(
            per_element(Kernel::AddBias, rows * cols),
        ),
        Op::QkNorm { rows, heads, .. } => Dispatch::Kernel(
            Launch {
                kernel: Kernel::QkNorm,
                grid: (rows as u32, heads as u32, 1),
                block: BLOCK,
                shared: 0,
            },
        ),
        Op::Rope { rows, heads, kv_heads, dim, .. } => Dispatch::Kernel(
            per_element(
                Kernel::RopeBatched,
                rows * vstd::math::max(heads as int, kv_heads as int) * dim,
            ),
        ),
        Op::Add { n, .. } => Dispatch::Kernel(per_element(Kernel::Add, n as int)),
        Op::SiluMul { n, .. } => Dispatch::Kernel(per_element(Kernel::SiluMul, n as int)),
        _ => Dispatch::Other,
    }
}

/// The dimensions of full attention are within what the kernels take.
pub open spec fn attention_in_range(op: Op) -> bool {
    match op {
        Op::AttnBatched { half: true, rows, heads, kv_heads, .. } => 0 <= heads && 0 < kv_heads
            && fits2(rows as int, kv_heads as int),
        Op::AttnPrefillF16 { heads, .. } => 0 <= heads,
        Op::KvStore { half: true, rows, kv_heads, dim, .. } => fits3(
            rows as int,
            kv_heads as int,
            dim as int,
        ),
        Op::KvStore { half: false, rows, kv_heads, dim, .. } => fits3(
            rows as int,
            kv_heads as int,
            dim as int,
        ),
        Op::KvStorePaged { half: true, rows, kv_heads, dim, .. } => fits3(
            rows as int,
            kv_heads as int,
            dim as int,
        ),
        Op::KvStorePaged { half: false, rows, kv_heads, dim, .. } => fits3(
            rows as int,
            kv_heads as int,
            dim as int,
        ),
        Op::AttnBatched {
            half: false,
            rows,
            heads,
            max_seq,
            ..
        } => fits2(rows as int, heads as int)
            && 0 <= max_seq <= MAX_SCORES,
        Op::AttnPaged {
            half: true,
            rows,
            heads,
            tokens_per_page,
            max_pages,
            ..
        } => fits2(rows as int, heads as int)
            && scores_fit(max_pages as int, tokens_per_page as int),
        Op::AttnPaged {
            half: false,
            rows,
            heads,
            tokens_per_page,
            max_pages,
            ..
        } => fits2(rows as int, heads as int)
            && scores_fit(max_pages as int, tokens_per_page as int),
        _ => true,
    }
}

/// How full attention is started.
pub open spec fn attention_start(op: Op) -> Dispatch {
    match op {
        Op::AttnBatched { half: true, rows, heads, kv_heads, .. } => Dispatch::Kernel(
            Launch {
                kernel: Kernel::AttnDecodeBatchedHalfGqa,
                grid: ((rows * kv_heads) as u32, 1, 1),
                block: BLOCK,
                shared: ((heads / kv_heads) * 4096) as u32,
            },
        ),
        Op::AttnPrefillF16 { heads, .. } => Dispatch::Kernel(
            Launch {
                kernel: Kernel::AttnPrefillHalf,
                grid: (heads as u32, 1, 1),
                block: BLOCK,
                shared: 0,
            },
        ),
        Op::KvStore { half: true, rows, kv_heads, dim, .. } => Dispatch::Kernel(
            per_element(Kernel::KvStoreBatchedHalf, rows * kv_heads * dim),
        ),
        Op::KvStore { half: false, rows, kv_heads, dim, .. } => Dispatch::Kernel(
            per_element(Kernel::KvStoreBatched, rows * kv_heads * dim),
        ),
        Op::KvStorePaged { half: true, rows, kv_heads, dim, .. } => Dispatch::Kernel(
            per_element(Kernel::KvStorePagedHalf, rows * kv_heads * dim),
        ),
        Op::KvStorePaged { half: false, rows, kv_heads, dim, .. } => Dispatch::Kernel(
            per_element(Kernel::KvStorePaged, rows * kv_heads * dim),
        ),
        Op::AttnBatched { half: false, rows, heads, max_seq, .. } => Dispatch::Kernel(
            Launch {
                kernel: Kernel::AttnDecodeBatched,
                grid: ((rows * heads) as u32, 1, 1),
                block: BLOCK,
                shared: ((max_seq + 256) * 4) as u32,
            },
        ),
        Op::AttnPaged { half: true, rows, heads, tokens_per_page, max_pages, .. } =>
        Dispatch::Kernel(
            Launch {
                kernel: Kernel::AttnDecodePagedHalfGqa,
                grid: ((rows * heads) as u32, 1, 1),
                block: BLOCK,
                shared: ((max_pages * tokens_per_page + 256) * 4) as u32,
            },
        ),
        Op::AttnPaged { half: false, rows, heads, tokens_per_page, max_pages, .. } =>
        Dispatch::Kernel(
            Launch {
                kernel: Kernel::AttnDecodePaged,
                grid: ((rows * heads) as u32, 1, 1),
                block: BLOCK,
                shared: ((max_pages * tokens_per_page + 256) * 4) as u32,
            },
        ),
        _ => Dispatch::Other,
    }
}

/// The dimensions of low-rank attention are within what the kernels take.
pub open spec fn mla_in_range(op: Op) -> bool {
    match op {
        Op::MlaExtractKvLora { rows, rank, .. } => fits2(rows as int, rank as int),
        Op::MlaExtractKRope { rows, rope, .. } => fits2(rows as int, rope as int),
        Op::MlaAssembleQ { rows, heads, nope, rope } => head_fits(
            rows as int,
            heads as int,
            nope as int,
            rope as int,
        ),
        Op::MlaStorePaged { rows, heads, nope, rope, v_dim, .. } => head_fits(
            rows as int,
            heads as int,
            nope as int,
            rope as int,
        )
            && fits3(rows as int, heads as int, v_dim as int),
        Op::MlaStore { rows, heads, nope, rope, v_dim, .. } => head_fits(
            rows as int,
            heads as int,
            nope as int,
            rope as int,
        )
            && fits3(rows as int, heads as int, v_dim as int),
        Op::MlaAttnPaged {
            rows,
            heads,
            tokens_per_page,
            max_pages,
            ..
        } => fits2(rows as int, heads as int)
            && scores_fit(max_pages as int, tokens_per_page as int),
        Op::MlaAttn { rows, heads, max_seq, .. } => fits2(rows as int, heads as int)
            && 0 <= max_seq <= MAX_SCORES,
        _ => true,
    }
}

/// How low-rank attention is started.
pub open spec fn mla_start(op: Op) -> Dispatch {
    match op {
        Op::MlaExtractKvLora { rows, rank, .. } => Dispatch::Kernel(
            per_element(Kernel::MlaExtractKvLora, rows * rank),
        ),
        Op::MlaExtractKRope { rows, rope, .. } => Dispatch::Kernel(
            per_element(Kernel::MlaExtractKRope, rows * rope),
        ),
        Op::MlaAssembleQ { rows, heads, nope, rope } => Dispatch::Kernel(
            per_element(Kernel::MlaAssembleQBatched, rows * heads * (nope + rope)),
        ),
        Op::MlaStorePaged { rows, heads, nope, rope, v_dim, .. } => Dispatch::Kernel(
            per_element(
                Kernel::KvStorePagedMla,
                vstd::math::max(rows * heads * (nope + rope), rows * heads * v_dim),
            ),
        ),
        Op::MlaStore { rows, heads, nope, rope, v_dim, .. } => Dispatch::Kernel(
            per_element(
                Kernel::MlaAssembleKvBatched,
                vstd::math::max(rows * heads * (nope + rope), rows * heads * v_dim),
            ),
        ),
        Op::MlaAttnPaged { rows, heads, tokens_per_page, max_pages, .. } => Dispatch::Kernel(
            Launch {
                kernel: Kernel::AttnDecodePagedMlaBatched,
                grid: ((rows * heads) as u32, 1, 1),
                block: BLOCK,
                shared: ((max_pages * tokens_per_page + 256) * 4) as u32,
            },
        ),
        Op::MlaAttn { rows, heads, max_seq, .. } => Dispatch::Kernel(
            Launch {
                kernel: Kernel::MlaAttnDecodeBatched,
                grid: ((rows * heads) as u32, 1, 1),
                block: BLOCK,
                shared: ((max_seq + 256) * 4) as u32,
            },
        ),
        _ => Dispatch::Other,
    }
}

/// The dimensions of routed experts are within what the kernels take.
pub open spec fn moe_in_range(op: Op) -> bool {
    match op {
        Op::MoeRouter { experts, rows, .. } => 0 <= rows && 0 <= experts <= MAX_SCORES,
        Op::MoeGroupedGateUp { source, rows, inter, .. } => 0 <= rows && 0 <= inter,
        Op::MoeGroupedDown { source, rows, d, .. } => 0 <= rows && 0 <= d,
        Op::MoeScatterAll { rows, d, .. } => fits2(rows as int, d as int),
        Op::MoeCountExperts { rows, topk } => fits2(rows as int, topk as int),
        Op::MoePrefixSum { experts } => 0 <= experts <= 256,
        Op::MoeGatherRows { rows, topk, .. } => fits2(rows as int, topk as int),
        Op::MoeScatterAdd { rows, d, .. } => fits2(rows as int, d as int),
        _ => true,
    }
}

/// How routed experts are started.
pub open spec fn moe_start(op: Op) -> Dispatch {
    match op {
        Op::MoeRouter { experts, rows, .. } => Dispatch::Kernel(
            Launch {
                kernel: Kernel::MoeRouterBatched,
                grid: (rows as u32, 1, 1),
                block: BLOCK,
                shared: (experts * 4) as u32,
            },
        ),
        Op::MoeGroupedGateUp { source, rows, inter, .. } => Dispatch::Kernel(
            Launch {
                kernel: gate_up_kernel(source),
                grid: (rows as u32, inter as u32, 1),
                block: 128,
                shared: 0,
            },
        ),
        Op::MoeGroupedDown { source, rows, d, .. } => Dispatch::Kernel(
            Launch {
                kernel: down_kernel(source),
                grid: (rows as u32, d as u32, 1),
                block: 128,
                shared: 0,
            },
        ),
        Op::MoeScatterAll { rows, d, .. } => Dispatch::Kernel(
            Launch {
                kernel: Kernel::MoeScatterAll,
                grid: (vstd::math::max(blocks_for(rows * d), 1) as u32, 1, 1),
                block: BLOCK,
                shared: 0,
            },
        ),
        Op::MoeCountExperts { rows, topk } => Dispatch::Kernel(
            per_element(Kernel::MoeCountExperts, rows * topk),
        ),
        Op::MoePrefixSum { experts } => Dispatch::Kernel(
                Launch { kernel: Kernel::MoePrefixSum, grid: (1, 1, 1), block: BLOCK, shared: 0 },
            ),
        Op::MoeGatherRows { rows, topk, .. } => Dispatch::Kernel(
            per_element(Kernel::MoeGatherRows, rows * topk),
        ),
        Op::MoeScatterAdd { rows, d, .. } => Dispatch::Kernel(
            per_element(Kernel::MoeScatterAdd, rows * d),
        ),
        _ => Dispatch::Other,
    }
}

/// The dimensions of an operation are within what its kernel takes.
pub open spec fn in_range(op: Op) -> bool {
    match op {
        Op::Gemm { .. }
        | Op::ExpertGemm { .. } => product_in_range(op),
        Op::Embed { .. }
        | Op::RmsNorm { .. }
        | Op::AddBias { .. }
        | Op::QkNorm { .. }
        | Op::Rope { .. }
        | Op::Add { .. }
        | Op::SiluMul { .. } => row_in_range(op),
        Op::KvStore { .. }
        | Op::KvStorePaged { .. }
        | Op::AttnBatched { .. }
        | Op::AttnPaged { .. }
        | Op::AttnPrefillF16 { .. } => attention_in_range(op),
        Op::MlaExtractKvLora { .. }
        | Op::MlaExtractKRope { .. }
        | Op::MlaAssembleQ { .. }
        | Op::MlaStorePaged { .. }
        | Op::MlaStore { .. }
        | Op::MlaAttnPaged { .. }
        | Op::MlaAttn { .. } => mla_in_range(op),
        Op::MoeRouter { .. }
        | Op::MoeGroupedGateUp { .. }
        | Op::MoeGroupedDown { .. }
        | Op::MoeScatterAll { .. }
        | Op::MoeCountExperts { .. }
        | Op::MoePrefixSum { .. }
        | Op::MoeGatherRows { .. }
        | Op::MoeScatterAdd { .. } => moe_in_range(op),
        _ => true,
    }
}

/// Why the kernel of an operation refuses it, if it does.
pub open spec fn refused(op: Op) -> Option<LaunchError> {
    match op {
        Op::AttnBatched { half: true, heads, kv_heads, dim, .. } => if gqa_supported(
            heads as int,
            kv_heads as int,
            dim as int,
        ) {
            None
        } else {
            Some(LaunchError::GqaGeometry { heads, kv_heads, head_dim: dim })
        },
        Op::AttnPrefillF16 { run, dim, .. } => if run.count > 64 || dim > 64 {
            Some(LaunchError::PrefillGeometry { rows: run.count, head_dim: dim })
        } else {
            None
        },
        _ => None,
    }
}

/// How an operation is started.
pub open spec fn dispatched(op: Op) -> Dispatch {
    match op {
        Op::Gemm { .. }
        | Op::ExpertGemm { .. } => product_start(op),
        Op::Embed { .. }
        | Op::RmsNorm { .. }
        | Op::AddBias { .. }
        | Op::QkNorm { .. }
        | Op::Rope { .. }
        | Op::Add { .. }
        | Op::SiluMul { .. } => row_start(op),
        Op::KvStore { .. }
        | Op::KvStorePaged { .. }
        | Op::AttnBatched { .. }
        | Op::AttnPaged { .. }
        | Op::AttnPrefillF16 { .. } => attention_start(op),
        Op::MlaExtractKvLora { .. }
        | Op::MlaExtractKRope { .. }
        | Op::MlaAssembleQ { .. }
        | Op::MlaStorePaged { .. }
        | Op::MlaStore { .. }
        | Op::MlaAttnPaged { .. }
        | Op::MlaAttn { .. } => mla_start(op),
        Op::MoeRouter { .. }
        | Op::MoeGroupedGateUp { .. }
        | Op::MoeGroupedDown { .. }
        | Op::MoeScatterAll { .. }
        | Op::MoeCountExperts { .. }
        | Op::MoePrefixSum { .. }
        | Op::MoeGatherRows { .. }
        | Op::MoeScatterAdd { .. } => moe_start(op),
        _ => Dispatch::Other,
    }
}

fn larger(a: i32, b: i32) -> (m: i32)
    ensures
        m == vstd::math::max(a as int, b as int),
{
    if a > b {
        a
    } else {
        b
    }
}

fn check2(a: i32, b: i32) -> (ok: bool)
    ensures
        ok == fits2(a as int, b as int),
{
    if a < 0 || b < 0 {
        return false;
    }
    proof {
        assert(0 <= a * b <= 0x4000_0000_0000_0000) by (nonlinear_arith)
            requires
                0 <= a <= 0x7fff_ffff,
                0 <= b <= 0x7fff_ffff,
        ;
    }
    a as i64 * b as i64 <= i32::MAX as i64
}

fn check3(a: i32, b: i32, c: i32) -> (ok: bool)
    ensures
        ok == fits3(a as int, b as int, c as int),
{
    if c < 0 || !check2(a, b) {
        return false;
    }
    proof {
        assert(0 <= a * b) by (nonlinear_arith)
            requires
                0 <= a,
                0 <= b,
        ;
    }
    check2(a * b, c)
}

fn check_head(rows: i32, heads: i32, nope: i32, rope: i32) -> (ok: bool)
    ensures
        ok == head_fits(rows as int, heads as int, nope as int, rope as int),
{
    if nope < 0 || rope < 0 || nope > i32::MAX - rope {
        return false;
    }
    check3(rows, heads, nope + rope)
}

fn check_scores(max_pages: i32, tokens_per_page: i32) -> (ok: bool)
    ensures
        ok == scores_fit(max_pages as int, tokens_per_page as int),
{
    check2(max_pages, tokens_per_page) && max_pages * tokens_per_page <= MAX_SCORES
}

impl HipKernels {
    /// Starts an operation of a forward pass: picks its kernel and lays out the launch. Refuses
    /// dimensions beyond what the kernel takes.
    pub fn dispatch(&self, op: &Op) -> (r: Result<Dispatch, LaunchError>)
        ensures
            match r {
                Ok(d) => in_range(*op) && refused(*op) is None && d == dispatched(*op),
                Err(e) => if in_range(*op) {
                    refused(*op) == Some(e)
                } else {
                    e == LaunchError::Dimensions
                },
            },
    {
        match *op {
            Op::Gemm { .. }
            | Op::ExpertGemm { .. } => self.start_product(op),
            Op::Embed { .. }
            | Op::RmsNorm { .. }
            | Op::AddBias { .. }
            | Op::QkNorm { .. }
            | Op::Rope { .. }
            | Op::Add { .. }
            | Op::SiluMul { .. } => self.start_row(op),
            Op::KvStore { .. }
            | Op::KvStorePaged { .. }
            | Op::AttnBatched { .. }
            | Op::AttnPaged { .. }
            | Op::AttnPrefillF16 { .. } => self.start_attention(op),
            Op::MlaExtractKvLora { .. }
            | Op::MlaExtractKRope { .. }
            | Op::MlaAssembleQ { .. }
            | Op::MlaStorePaged { .. }
            | Op::MlaStore { .. }
            | Op::MlaAttnPaged { .. }
            | Op::MlaAttn { .. } => self.start_mla(op),
            Op::MoeRouter { .. }
            | Op::MoeGroupedGateUp { .. }
            | Op::MoeGroupedDown { .. }
            | Op::MoeScatterAll { .. }
            | Op::MoeCountExperts { .. }
            | Op::MoePrefixSum { .. }
            | Op::MoeGatherRows { .. }
            | Op::MoeScatterAdd { .. } => self.start_moe(op),
            _ => Ok(Dispatch::Other),
        }
    }

    fn start_product(&self, op: &Op) -> (r: Result<Dispatch, LaunchError>)
        ensures
            match r {
                Ok(d) => product_in_range(*op) && d == product_start(*op),
                Err(e) => !product_in_range(*op) && e == LaunchError::Dimensions,
            },
    {
        match *op {
            Op::Gemm { path: GemmPath::GemvF16, n, k, rows, .. } => if n >= 0 && rows >= 0 && k
                >= 0 && k <= MAX_STAGED {
                Ok(Dispatch::Kernel(self.launch_gemv_f16(n, k, rows)))
            } else {
                Err(LaunchError::Dimensions)
            },
            Op::Gemm { path: GemmPath::BatchedF16, n, k, rows, .. } => self.half_product(
                rows,
                n,
                k,
            ),
            Op::Gemm { path: GemmPath::BatchedF32, n, k, rows, .. } => Ok(
                Dispatch::Gemm(self.gemm_batched(rows, n, k)),
            ),
            Op::ExpertGemm { source: ExpertSource::F16, n, k, rows, .. } => self.half_product(
                rows,
                n,
                k,
            ),
            Op::ExpertGemm { source: ExpertSource::Resident, n, k, rows, .. }
            | Op::ExpertGemm { source: ExpertSource::Prefetched, n, k, rows, .. } => Ok(
                Dispatch::Gemm(self.gemm_batched(rows, n, k)),
            ),
            _ => Ok(Dispatch::Other),
        }
    }

    fn start_row(&self, op: &Op) -> (r: Result<Dispatch, LaunchError>)
        ensures
            match r {
                Ok(d) => row_in_range(*op) && d == row_start(*op),
                Err(e) => !row_in_range(*op) && e == LaunchError::Dimensions,
            },
    {
        match *op {
            Op::Embed { copy: DeviceCopy::F32, cols, rows } => if cols >= 0 && rows >= 0 {
                Ok(Dispatch::Kernel(self.launch_embed_batched(cols, rows)))
            } else {
                Err(LaunchError::Dimensions)
            },
            Op::Embed { copy: DeviceCopy::F16, cols, rows } => if cols >= 0 && rows >= 0 {
                Ok(Dispatch::Kernel(self.launch_embed_f16(cols, rows)))
            } else {
                Err(LaunchError::Dimensions)
            },
            Op::RmsNorm { rows, .. } => if rows >= 0 {
                Ok(Dispatch::Kernel(self.launch_rms_norm(rows)))
            } else {
                Err(LaunchError::Dimensions)
            },
            Op::AddBias { rows, cols, .. } => if check2(rows, cols) {
                Ok(Dispatch::Kernel(self.launch_add_bias(rows, cols)))
            } else {
                Err(LaunchError::Dimensions)
            },
            Op::QkNorm { rows, heads, .. } => if rows >= 0 && heads >= 0 {
                Ok(Dispatch::Kernel(self.launch_qk_norm(rows, heads)))
            } else {
                Err(LaunchError::Dimensions)
            },
            Op::Rope { rows, heads, kv_heads, dim, .. } => if heads >= 0
                && kv_heads >= 0
                && check3(rows, larger(heads, kv_heads), dim) {
                Ok(Dispatch::Kernel(self.launch_rope_batched(rows, heads, kv_heads, dim)))
            } else {
                Err(LaunchError::Dimensions)
            },
            Op::Add { n, .. } => if n >= 0 {
                Ok(Dispatch::Kernel(self.launch_add(n)))
            } else {
                Err(LaunchError::Dimensions)
            },
            Op::SiluMul { n, .. } => if n >= 0 {
                Ok(Dispatch::Kernel(self.launch_silu_mul(n)))
            } else {
                Err(LaunchError::Dimensions)
            },
            _ => Ok(Dispatch::Other),
        }
    }

    fn start_attention(&self, op: &Op) -> (r: Result<Dispatch, LaunchError>)
        ensures
            match r {
                Ok(d) => attention_in_range(*op)
                    && refused(*op) is None
                    && d == attention_start(*op),
                Err(e) => if attention_in_range(*op) {
                    refused(*op) == Some(e)
                } else {
                    e == LaunchError::Dimensions
                },
            },
    {
        match *op {
            Op::AttnBatched { half: true, rows, heads, kv_heads, dim, .. } => if heads >= 0
                && kv_heads > 0 && check2(rows, kv_heads) {
                match self.launch_attn_decode_batched_f16_gqa(rows, heads, kv_heads, dim) {
                    Ok(l) => Ok(Dispatch::Kernel(l)),
                    Err(e) => Err(e),
                }
            } else {
                Err(LaunchError::Dimensions)
            },
            Op::AttnPrefillF16 { run, heads, dim, .. } => if heads >= 0 {
                match self.launch_attn_prefill_f16(run.count, heads, dim) {
                    Ok(l) => Ok(Dispatch::Kernel(l)),
                    Err(e) => Err(e),
                }
            } else {
                Err(LaunchError::Dimensions)
            },
            Op::KvStore { half: true, rows, kv_heads, dim, .. } => if check3(rows, kv_heads, dim) {
                Ok(Dispatch::Kernel(self.launch_kv_store_batched_f16(rows, kv_heads, dim)))
            } else {
                Err(LaunchError::Dimensions)
            },
            Op::KvStore { half: false, rows, kv_heads, dim, .. } => if check3(rows, kv_heads, dim) {
                Ok(Dispatch::Kernel(self.launch_kv_store_batched(rows, kv_heads, dim)))
            } else {
                Err(LaunchError::Dimensions)
            },
            Op::KvStorePaged { half: true, rows, kv_heads, dim, .. } => if check3(
                rows,
                kv_heads,
                dim,
            ) {
                Ok(Dispatch::Kernel(self.launch_kv_store_paged_f16(rows, kv_heads, dim)))
            } else {
                Err(LaunchError::Dimensions)
            },
            Op::KvStorePaged { half: false, rows, kv_heads, dim, .. } => if check3(
                rows,
                kv_heads,
                dim,
            ) {
                Ok(Dispatch::Kernel(self.launch_kv_store_paged(rows, kv_heads, dim)))
            } else {
                Err(LaunchError::Dimensions)
            },
            Op::AttnBatched { half: false, rows, heads, max_seq, .. } => if check2(rows, heads)
                && max_seq >= 0
                && max_seq <= MAX_SCORES {
                Ok(Dispatch::Kernel(self.launch_attn_decode_batched(rows, heads, max_seq)))
            } else {
                Err(LaunchError::Dimensions)
            },
            Op::AttnPaged {
                half: true,
                rows,
                heads,
                tokens_per_page,
                max_pages,
                ..
            } => if check2(rows, heads)
                && check_scores(max_pages, tokens_per_page) {
                Ok(
                    Dispatch::Kernel(
                        self.launch_attn_decode_paged_f16_gqa(
                            rows,
                            heads,
                            tokens_per_page,
                            max_pages,
                        ),
                    ),
                )
            } else {
                Err(LaunchError::Dimensions)
            },
            Op::AttnPaged {
                half: false,
                rows,
                heads,
                tokens_per_page,
                max_pages,
                ..
            } => if check2(rows, heads)
                && check_scores(max_pages, tokens_per_page) {
                Ok(
                    Dispatch::Kernel(
                        self.launch_attn_decode_paged(rows, heads, tokens_per_page, max_pages),
                    ),
                )
            } else {
                Err(LaunchError::Dimensions)
            },
            _ => Ok(Dispatch::Other),
        }
    }

    fn start_mla(&self, op: &Op) -> (r: Result<Dispatch, LaunchError>)
        ensures
            match r {
                Ok(d) => mla_in_range(*op) && d == mla_start(*op),
                Err(e) => !mla_in_range(*op) && e == LaunchError::Dimensions,
            },
    {
        match *op {
            Op::MlaExtractKvLora { rows, rank, .. } => if check2(rows, rank) {
                Ok(Dispatch::Kernel(self.launch_mla_extract_kv_lora(rows, rank)))
            } else {
                Err(LaunchError::Dimensions)
            },
            Op::MlaExtractKRope { rows, rope, .. } => if check2(rows, rope) {
                Ok(Dispatch::Kernel(self.launch_mla_extract_k_rope(rows, rope)))
            } else {
                Err(LaunchError::Dimensions)
            },
            Op::MlaAssembleQ { rows, heads, nope, rope } => if check_head(rows, heads, nope, rope) {
                Ok(Dispatch::Kernel(self.launch_mla_assemble_q_batched(rows, heads, nope, rope)))
            } else {
                Err(LaunchError::Dimensions)
            },
            Op::MlaStorePaged {
                rows,
                heads,
                nope,
                rope,
                v_dim,
                ..
            } => if check_head(rows, heads, nope, rope)
                && check3(rows, heads, v_dim) {
                Ok(Dispatch::Kernel(self.launch_kv_store_paged_mla(rows, heads, nope, rope, v_dim)))
            } else {
                Err(LaunchError::Dimensions)
            },
            Op::MlaStore {
                rows,
                heads,
                nope,
                rope,
                v_dim,
                ..
            } => if check_head(rows, heads, nope, rope)
                && check3(rows, heads, v_dim) {
                Ok(
                    Dispatch::Kernel(
                        self.launch_mla_assemble_kv_batched(rows, heads, nope, rope, v_dim),
                    ),
                )
            } else {
                Err(LaunchError::Dimensions)
            },
            Op::MlaAttnPaged {
                rows,
                heads,
                tokens_per_page,
                max_pages,
                ..
            } => if check2(rows, heads)
                && check_scores(max_pages, tokens_per_page) {
                Ok(
                    Dispatch::Kernel(
                        self.launch_attn_decode_paged_mla_batched(
                            rows,
                            heads,
                            tokens_per_page,
                            max_pages,
                        ),
                    ),
                )
            } else {
                Err(LaunchError::Dimensions)
            },
            Op::MlaAttn { rows, heads, max_seq, .. } => if check2(rows, heads)
                && max_seq >= 0
                && max_seq <= MAX_SCORES {
                Ok(Dispatch::Kernel(self.launch_mla_attn_decode_batched(rows, heads, max_seq)))
            } else {
                Err(LaunchError::Dimensions)
            },
            _ => Ok(Dispatch::Other),
        }
    }

    fn start_moe(&self, op: &Op) -> (r: Result<Dispatch, LaunchError>)
        ensures
            match r {
                Ok(d) => moe_in_range(*op) && d == moe_start(*op),
                Err(e) => !moe_in_range(*op) && e == LaunchError::Dimensions,
            },
    {
        match *op {
            Op::MoeRouter { experts, rows, .. } => if rows >= 0
                && experts >= 0
                && experts <= MAX_SCORES {
                Ok(Dispatch::Kernel(self.launch_moe_router_batched(experts, rows)))
            } else {
                Err(LaunchError::Dimensions)
            },
            Op::MoeGroupedGateUp { source, rows, inter, .. } => if rows >= 0 && inter >= 0 {
                Ok(Dispatch::Kernel(if matches!(source, ExpertSource::Q4) {
                    self.launch_moe_grouped_gate_up_q4(rows, inter)
                } else {
                    self.launch_moe_grouped_gate_up(
                        rows,
                        inter,
                        matches!(source, ExpertSource::F16),
                    )
                }))
            } else {
                Err(LaunchError::Dimensions)
            },
            Op::MoeGroupedDown { source, rows, d, .. } => if rows >= 0 && d >= 0 {
                Ok(Dispatch::Kernel(if matches!(source, ExpertSource::Q4) {
                    self.launch_moe_grouped_down_q4(rows, d)
                } else {
                    self.launch_moe_grouped_down(rows, d, matches!(source, ExpertSource::F16))
                }))
            } else {
                Err(LaunchError::Dimensions)
            },
            Op::MoeScatterAll { rows, d, .. } => if check2(rows, d) {
                Ok(Dispatch::Kernel(self.launch_moe_scatter_all(rows, d)))
            } else {
                Err(LaunchError::Dimensions)
            },
            Op::MoeCountExperts { rows, topk } => if check2(rows, topk) {
                Ok(Dispatch::Kernel(self.launch_moe_count_experts(rows, topk)))
            } else {
                Err(LaunchError::Dimensions)
            },
            Op::MoePrefixSum { experts } => if experts >= 0 && experts <= 256 {
                Ok(Dispatch::Kernel(self.launch_moe_prefix_sum(experts)))
            } else {
                Err(LaunchError::Dimensions)
            },
            Op::MoeGatherRows { rows, topk, .. } => if check2(rows, topk) {
                Ok(Dispatch::Kernel(self.launch_moe_gather_rows(rows, topk)))
            } else {
                Err(LaunchError::Dimensions)
            },
            Op::MoeScatterAdd { rows, d, .. } => if check2(rows, d) {
                Ok(Dispatch::Kernel(self.launch_moe_scatter_add(rows, d)))
            } else {
                Err(LaunchError::Dimensions)
            },
            _ => Ok(Dispatch::Other),
        }
    }

    fn half_product(&self, rows: i32, n: i32, k: i32) -> (r: Result<Dispatch, LaunchError>)
        ensures
            match r {
                Ok(d) => fits2(rows as int, k as int) && fits2(rows as int, n as int) && d
                    == half_gemm(rows, n, k),
                Err(e) => !(fits2(rows as int, k as int) && fits2(rows as int, n as int)) && e
                    == LaunchError::Dimensions,
            },
    {
        if check2(rows, k) && check2(rows, n) {
            let (cast, product, back) = self.gemm_batched_f16(rows, n, k);
            Ok(Dispatch::HalfGemm(cast, product, back))
        } else {
            Err(LaunchError::Dimensions)
        }
    }
}

} // verus!
