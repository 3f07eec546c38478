//! Device kernels: which there are, how they are loaded, and the geometry of each launch.
//!
//! A launch function checks its arguments and gives the grid, the block size and the dynamic
//! shared memory; binding the pointers and starting the kernel is the caller's part.

use vstd::prelude::*;

verus! {

/// The device kernels.
#[derive(Debug, Clone, Copy, PartialEq, Eq, Structural)]
pub enum Kernel {
    EmbedGather,
    RmsNorm,
    QkNorm,
    SiluMul,
    Add,
    AddBias,
    KvStore,
    AttnDecode,
    MlaAssembleQ,
    MlaAssembleKv,
    MlaAttnDecode,
    MlaAssembleQBatched,
    MlaExtractKvLora,
    MlaExtractKRope,
    MlaAssembleKvBatched,
    MlaAttnDecodeBatched,
    Rope,
    EmbedBatched,
    RopeBatched,
    KvStoreBatched,
    AttnDecodeBatched,
    KvStorePaged,
    AttnDecodePaged,
    KvStorePagedHalf,
    AttnDecodePagedHalfGqa,
    KvStorePagedMla,
    AttnDecodePagedMlaBatched,
    ArgmaxBatched,
    CastToHalf,
    CastFromHalf,
    GemvHalf,
    EmbedGatherHalf,
    KvStoreBatchedHalf,
    AttnDecodeBatchedHalfGqa,
    AttnPrefillHalf,
    MoeRouter,
    MoeGatherWeights,
    MoeAccumulate,
    MoeRouterBatched,
    MoeCountExperts,
    MoeGatherRows,
    MoeScatterAdd,
    MoePrefixSum,
    MoeGroupedGateUp,
    MoeGroupedGateUpHalf,
    MoeGroupedDown,
    MoeGroupedDownHalf,
    MoeGroupedGateUpQ4,
    MoeGroupedDownQ4,
    MoeScatterAll,
    /// Single-row paged low-rank attention, which no model loads.
    AttnDecodePagedMla,
}

/// Threads of most blocks.
pub const BLOCK: u32 = 256;

/// Floats of dynamic shared memory that one block can have: 64 KiB.
pub const MAX_SMEM_FLOATS: u32 = 16_384;

/// Bytes of shared memory that stage a row of activations.
pub const GEMV_STAGE_BYTES: i64 = 49_152;

/// How a kernel is started.
#[derive(Debug, Clone, Copy, PartialEq, Eq)]
pub struct Launch {
    pub kernel: Kernel,
    pub grid: (u32, u32, u32),
    pub block: u32,
    /// Dynamic shared memory in bytes.
    pub shared: u32,
}

/// Why a launch is refused.
#[allow(inconsistent_fields)]
#[derive(Debug, Clone, Copy, PartialEq, Eq, Structural)]
pub enum LaunchError {
    /// The scores exceed the shared memory.
    SharedMemory { floats: u32 },
    /// The prefill kernel holds 64 rows of at most 64 dimensions.
    PrefillGeometry { rows: i32, head_dim: i32 },
    /// The grouped-query kernel does not cover the head layout.
    GqaGeometry { heads: i32, kv_heads: i32, head_dim: i32 },
    /// The grid exceeds 32 bits.
    GridTooLarge,
    /// A dimension is negative or beyond the kernel, or a product of them exceeds 32 bits.
    Dimensions,
}

/// Blocks of 256 threads that cover `total` elements.
pub open spec fn blocks_for(total: int) -> int {
    (total + 255) / 256
}

/// One thread per element.
pub open spec fn per_element(kernel: Kernel, total: int) -> Launch {
    Launch { kernel, grid: (blocks_for(total) as u32, 1, 1), block: BLOCK, shared: 0 }
}

/// One thread for each of `n` elements, in full blocks of which all are needed.
pub open spec fn thread_for_each(l: Launch, n: int) -> bool {
    &&& l.block == 256
    &&& n <= l.grid.0 * 256 < n + 256
    &&& l.grid.1 == 1
    &&& l.grid.2 == 1
}

fn cover(kernel: Kernel, total: i32) -> (l: Launch)
    requires
        0 <= total,
    ensures
        l == per_element(kernel, total as int),
        thread_for_each(l, total as int),
{
    let t: u32 = total as u32;
    let full: u32 = t / 256;
    let blocks: u32 = if t % 256 == 0 {
        full
    } else {
        full + 1
    };
    Launch { kernel, grid: (blocks, 1, 1), block: BLOCK, shared: 0 }
}

/// The kernel's entry point.
pub open spec fn entry_point(k: Kernel) -> Seq<char> {
    match k {
        Kernel::EmbedGather => "embed_gather"@,
        Kernel::RmsNorm => "rms_norm"@,
        Kernel::QkNorm => "qk_norm"@,
        Kernel::SiluMul => "silu_mul"@,
        Kernel::Add => "add"@,
        Kernel::AddBias => "add_bias"@,
        Kernel::KvStore => "kv_store"@,
        Kernel::AttnDecode => "attn_decode"@,
        Kernel::MlaAssembleQ => "mla_assemble_q"@,
        Kernel::MlaAssembleKv => "mla_assemble_kv"@,
        Kernel::MlaAttnDecode => "mla_attn_decode"@,
        Kernel::MlaAssembleQBatched => "mla_assemble_q_batched"@,
        Kernel::MlaExtractKvLora => "mla_extract_kv_lora"@,
        Kernel::MlaExtractKRope => "mla_extract_k_rope"@,
        Kernel::MlaAssembleKvBatched => "mla_assemble_kv_batched"@,
        Kernel::MlaAttnDecodeBatched => "mla_attn_decode_batched"@,
        Kernel::Rope => "rope"@,
        Kernel::EmbedBatched => "embed_batched"@,
        Kernel::RopeBatched => "rope_batched"@,
        Kernel::KvStoreBatched => "kv_store_batched"@,
        Kernel::AttnDecodeBatched => "attn_decode_batched"@,
        Kernel::KvStorePaged => "kv_store_paged"@,
        Kernel::AttnDecodePaged => "attn_decode_paged"@,
        Kernel::KvStorePagedHalf => "kv_store_paged_f16"@,
        Kernel::AttnDecodePagedHalfGqa => "attn_decode_paged_f16_gqa"@,
        Kernel::KvStorePagedMla => "kv_store_paged_mla"@,
        Kernel::AttnDecodePagedMlaBatched => "attn_decode_paged_mla_batched"@,
        Kernel::ArgmaxBatched => "argmax_batched"@,
        Kernel::CastToHalf => "cast_f32_f16"@,
        Kernel::CastFromHalf => "cast_f16_f32"@,
        Kernel::GemvHalf => "gemv_f16"@,
        Kernel::EmbedGatherHalf => "embed_gather_f16"@,
        Kernel::KvStoreBatchedHalf => "kv_store_batched_f16"@,
        Kernel::AttnDecodeBatchedHalfGqa => "attn_decode_batched_f16_gqa"@,
        Kernel::AttnPrefillHalf => "attn_prefill_f16"@,
        Kernel::MoeRouter => "moe_router"@,
        Kernel::MoeGatherWeights => "moe_gather_weights"@,
        Kernel::MoeAccumulate => "moe_accumulate"@,
        Kernel::MoeRouterBatched => "moe_router_batched"@,
        Kernel::MoeCountExperts => "moe_count_experts"@,
        Kernel::MoeGatherRows => "moe_gather_rows"@,
        Kernel::MoeScatterAdd => "moe_scatter_add"@,
        Kernel::MoePrefixSum => "moe_prefix_sum"@,
        Kernel::MoeGroupedGateUp => "moe_grouped_gate_up"@,
        Kernel::MoeGroupedGateUpHalf => "moe_grouped_gate_up_f16"@,
        Kernel::MoeGroupedDown => "moe_grouped_down"@,
        Kernel::MoeGroupedDownHalf => "moe_grouped_down_f16"@,
        Kernel::MoeGroupedGateUpQ4 => "moe_grouped_gate_up_q4"@,
        Kernel::MoeGroupedDownQ4 => "moe_grouped_down_q4"@,
        Kernel::MoeScatterAll => "moe_scatter_all"@,
        Kernel::AttnDecodePagedMla => "attn_decode_paged_mla"@,
    }
}

impl Kernel {
    /// The kernel's entry point.
    #[must_use]
    pub fn name(&self) -> (n: &'static str)
        ensures
            n@ == entry_point(*self),
    {
        match self {
            Kernel::EmbedGather => "embed_gather",
            Kernel::RmsNorm => "rms_norm",
            Kernel::QkNorm => "qk_norm",
            Kernel::SiluMul => "silu_mul",
            Kernel::Add => "add",
            Kernel::AddBias => "add_bias",
            Kernel::KvStore => "kv_store",
            Kernel::AttnDecode => "attn_decode",
            Kernel::MlaAssembleQ => "mla_assemble_q",
            Kernel::MlaAssembleKv => "mla_assemble_kv",
            Kernel::MlaAttnDecode => "mla_attn_decode",
            Kernel::MlaAssembleQBatched => "mla_assemble_q_batched",
            Kernel::MlaExtractKvLora => "mla_extract_kv_lora",
            Kernel::MlaExtractKRope => "mla_extract_k_rope",
            Kernel::MlaAssembleKvBatched => "mla_assemble_kv_batched",
            Kernel::MlaAttnDecodeBatched => "mla_attn_decode_batched",
            Kernel::Rope => "rope",
            Kernel::EmbedBatched => "embed_batched",
            Kernel::RopeBatched => "rope_batched",
            Kernel::KvStoreBatched => "kv_store_batched",
            Kernel::AttnDecodeBatched => "attn_decode_batched",
            Kernel::KvStorePaged => "kv_store_paged",
            Kernel::AttnDecodePaged => "attn_decode_paged",
            Kernel::KvStorePagedHalf => "kv_store_paged_f16",
            Kernel::AttnDecodePagedHalfGqa => "attn_decode_paged_f16_gqa",
            Kernel::KvStorePagedMla => "kv_store_paged_mla",
            Kernel::AttnDecodePagedMlaBatched => "attn_decode_paged_mla_batched",
            Kernel::ArgmaxBatched => "argmax_batched",
            Kernel::CastToHalf => "cast_f32_f16",
            Kernel::CastFromHalf => "cast_f16_f32",
            Kernel::GemvHalf => "gemv_f16",
            Kernel::EmbedGatherHalf => "embed_gather_f16",
            Kernel::KvStoreBatchedHalf => "kv_store_batched_f16",
            Kernel::AttnDecodeBatchedHalfGqa => "attn_decode_batched_f16_gqa",
            Kernel::AttnPrefillHalf => "attn_prefill_f16",
            Kernel::MoeRouter => "moe_router",
            Kernel::MoeGatherWeights => "moe_gather_weights",
            Kernel::MoeAccumulate => "moe_accumulate",
            Kernel::MoeRouterBatched => "moe_router_batched",
            Kernel::MoeCountExperts => "moe_count_experts",
            Kernel::MoeGatherRows => "moe_gather_rows",
            Kernel::MoeScatterAdd => "moe_scatter_add",
            Kernel::MoePrefixSum => "moe_prefix_sum",
            Kernel::MoeGroupedGateUp => "moe_grouped_gate_up",
            Kernel::MoeGroupedGateUpHalf => "moe_grouped_gate_up_f16",
            Kernel::MoeGroupedDown => "moe_grouped_down",
            Kernel::MoeGroupedDownHalf => "moe_grouped_down_f16",
            Kernel::MoeGroupedGateUpQ4 => "moe_grouped_gate_up_q4",
            Kernel::MoeGroupedDownQ4 => "moe_grouped_down_q4",
            Kernel::MoeScatterAll => "moe_scatter_all",
            Kernel::AttnDecodePagedMla => "attn_decode_paged_mla",
        }
    }
}

/// The kernels that a model loads, in order.
pub open spec fn model_kernels() -> Seq<Kernel> {
    seq![
        Kernel::EmbedGather,
        Kernel::RmsNorm,
        Kernel::QkNorm,
        Kernel::SiluMul,
        Kernel::Add,
        Kernel::AddBias,
        Kernel::KvStore,
        Kernel::AttnDecode,
        Kernel::MlaAssembleQ,
        Kernel::MlaAssembleKv,
        Kernel::MlaAttnDecode,
        Kernel::MlaAssembleQBatched,
        Kernel::MlaExtractKvLora,
        Kernel::MlaExtractKRope,
        Kernel::MlaAssembleKvBatched,
        Kernel::MlaAttnDecodeBatched,
        Kernel::Rope,
        Kernel::EmbedBatched,
        Kernel::RopeBatched,
        Kernel::KvStoreBatched,
        Kernel::AttnDecodeBatched,
        Kernel::KvStorePaged,
        Kernel::AttnDecodePaged,
        Kernel::KvStorePagedHalf,
        Kernel::AttnDecodePagedHalfGqa,
        Kernel::KvStorePagedMla,
        Kernel::AttnDecodePagedMlaBatched,
        Kernel::ArgmaxBatched,
        Kernel::CastToHalf,
        Kernel::CastFromHalf,
        Kernel::GemvHalf,
        Kernel::EmbedGatherHalf,
        Kernel::KvStoreBatchedHalf,
        Kernel::AttnDecodeBatchedHalfGqa,
        Kernel::AttnPrefillHalf,
        Kernel::MoeRouter,
        Kernel::MoeGatherWeights,
        Kernel::MoeAccumulate,
        Kernel::MoeRouterBatched,
        Kernel::MoeCountExperts,
        Kernel::MoeGatherRows,
        Kernel::MoeScatterAdd,
        Kernel::MoePrefixSum,
        Kernel::MoeGroupedGateUp,
        Kernel::MoeGroupedGateUpHalf,
        Kernel::MoeGroupedDown,
        Kernel::MoeGroupedDownHalf,
        Kernel::MoeGroupedGateUpQ4,
        Kernel::MoeGroupedDownQ4,
        Kernel::MoeScatterAll,
    ]
}

/// The kernels that a model loads, in order.
#[must_use]
pub fn loaded_kernels() -> (list: Vec<Kernel>)
    ensures
        list@ == model_kernels(),
{
    let list = vec![
        Kernel::EmbedGather,
        Kernel::RmsNorm,
        Kernel::QkNorm,
        Kernel::SiluMul,
        Kernel::Add,
        Kernel::AddBias,
        Kernel::KvStore,
        Kernel::AttnDecode,
        Kernel::MlaAssembleQ,
        Kernel::MlaAssembleKv,
        Kernel::MlaAttnDecode,
        Kernel::MlaAssembleQBatched,
        Kernel::MlaExtractKvLora,
        Kernel::MlaExtractKRope,
        Kernel::MlaAssembleKvBatched,
        Kernel::MlaAttnDecodeBatched,
        Kernel::Rope,
        Kernel::EmbedBatched,
        Kernel::RopeBatched,
        Kernel::KvStoreBatched,
        Kernel::AttnDecodeBatched,
        Kernel::KvStorePaged,
        Kernel::AttnDecodePaged,
        Kernel::KvStorePagedHalf,
        Kernel::AttnDecodePagedHalfGqa,
        Kernel::KvStorePagedMla,
        Kernel::AttnDecodePagedMlaBatched,
        Kernel::ArgmaxBatched,
        Kernel::CastToHalf,
        Kernel::CastFromHalf,
        Kernel::GemvHalf,
        Kernel::EmbedGatherHalf,
        Kernel::KvStoreBatchedHalf,
        Kernel::AttnDecodeBatchedHalfGqa,
        Kernel::AttnPrefillHalf,
        Kernel::MoeRouter,
        Kernel::MoeGatherWeights,
        Kernel::MoeAccumulate,
        Kernel::MoeRouterBatched,
        Kernel::MoeCountExperts,
        Kernel::MoeGatherRows,
        Kernel::MoeScatterAdd,
        Kernel::MoePrefixSum,
        Kernel::MoeGroupedGateUp,
        Kernel::MoeGroupedGateUpHalf,
        Kernel::MoeGroupedDown,
        Kernel::MoeGroupedDownHalf,
        Kernel::MoeGroupedGateUpQ4,
        Kernel::MoeGroupedDownQ4,
        Kernel::MoeScatterAll,
    ];
    assert(list@ =~= model_kernels());
    list
}

/// Every kernel: those of a model, and the single-row paged low-rank attention.
#[must_use]
pub fn all_kernels() -> (list: Vec<Kernel>)
    ensures
        list@ == model_kernels().push(Kernel::AttnDecodePagedMla),
{
    let mut list = loaded_kernels();
    list.push(Kernel::AttnDecodePagedMla);
    list
}

/// Compiled kernels of this process, by architecture.
pub struct KernelCache {
    entries: Vec<(String, Kernel)>,
}

impl View for KernelCache {
    type V = Set<(Seq<char>, Kernel)>;

    closed spec fn view(&self) -> Set<(Seq<char>, Kernel)> {
        Set::new(
            |key: (Seq<char>, Kernel)|
                exists|i: int|
                    0 <= i < self.entries.len() && (#[trigger] self.entries[i]).0@ == key.0
                        && self.entries[i].1 == key.1,
        )
    }
}

/// One kernel to load.
#[derive(Debug, Clone, Copy, PartialEq, Eq, Structural)]
pub struct Load {
    pub kernel: Kernel,
    /// The process already compiled it for the architecture.
    pub cached: bool,
}

impl KernelCache {
    pub fn new() -> (c: KernelCache)
        ensures
            c@ == Set::<(Seq<char>, Kernel)>::empty(),
    {
        let c = KernelCache { entries: Vec::new() };
        assert(c@ =~= Set::empty());
        c
    }

    /// Whether the kernel was compiled for `arch`.
    pub fn contains(&self, arch: &String, kernel: Kernel) -> (b: bool)
        ensures
            b == self@.contains((arch@, kernel)),
    {
        let mut i: usize = 0;
        while i < self.entries.len()
            invariant
                i <= self.entries.len(),
                forall|k: int|
                    0 <= k < i ==> !((#[trigger] self.entries[k]).0@ == arch@
                        && self.entries[k].1 == kernel),
            decreases self.entries.len() - i,
        {
            if self.entries[i].1 == kernel && self.entries[i].0 == *arch {
                assert(self.entries[i as int].0@ == arch@);
                return true;
            }
            i = i + 1;
        }
        false
    }

    /// Records that a kernel was compiled for `arch`.
    pub fn insert(&mut self, arch: String, kernel: Kernel)
        ensures
            final(self)@ == old(self)@.insert((arch@, kernel)),
    {
        let ghost before = self.entries@;
        self.entries.push((arch, kernel));
        proof {
            let now = self.entries@;
            assert forall|key: (Seq<char>, Kernel)| #[trigger] self@.contains(key) == (old(
                self,
            )@.contains(key) || key == (arch@, kernel)) by {
                if old(self)@.contains(key) {
                    let k = choose|k: int|
                        0 <= k < before.len() && (#[trigger] before[k]).0@ == key.0
                            && before[k].1 == key.1;
                    assert(now[k] == before[k]);
                }
                if key == (arch@, kernel) {
                    assert(now[before.len() as int].0@ == key.0);
                }
                if self@.contains(key) {
                    let k = choose|k: int|
                        0 <= k < now.len() && (#[trigger] now[k]).0@ == key.0 && now[k].1
                            == key.1;
                    if k < before.len() {
                        assert(before[k] == now[k]);
                    }
                }
            }
            assert(self@ =~= old(self)@.insert((arch@, kernel)));
        }
    }
}

/// The kernels to load for `arch`, in order: those in `cache` are not compiled again.
pub open spec fn load_list(cache: Set<(Seq<char>, Kernel)>, arch: Seq<char>) -> Seq<Load> {
    model_kernels().map_values(
        |k: Kernel| Load { kernel: k, cached: cache.contains((arch, k)) },
    )
}

/// What a completed load leaves in the cache.
pub open spec fn with_loaded(
    cache: Set<(Seq<char>, Kernel)>,
    arch: Seq<char>,
) -> Set<(Seq<char>, Kernel)> {
    cache.union(
        Set::new(
            |key: (Seq<char>, Kernel)| key.0 == arch && model_kernels().contains(key.1),
        ),
    )
}

/// A process compiles a kernel at most once per architecture: after a load, every kernel of that
/// architecture is cached, and the others are as they were.
pub proof fn lemma_compiled_once(
    cache: Set<(Seq<char>, Kernel)>,
    arch: Seq<char>,
    other: Seq<char>,
)
    ensures
        forall|i: int|
            0 <= i < model_kernels().len() ==> (#[trigger] load_list(
                with_loaded(cache, arch),
                arch,
            )[i]).cached,
        other != arch ==> load_list(with_loaded(cache, arch), other) == load_list(cache, other),
{
    assert forall|i: int| 0 <= i < model_kernels().len() implies (#[trigger] load_list(
        with_loaded(cache, arch),
        arch,
    )[i]).cached by {
        assert(model_kernels().contains(model_kernels()[i]));
    }
    assert(other != arch ==> load_list(with_loaded(cache, arch), other) =~= load_list(
        cache,
        other,
    ));
}

/// The kernels of one model on one stream.
pub struct HipKernels {
    arch: String,
}

impl HipKernels {
    pub closed spec fn spec_arch(&self) -> Seq<char> {
        self.arch@
    }

    /// The kernels to load for `arch`, in order, each compiled at most once per process.
    pub fn new(arch: String, cache: &KernelCache) -> (r: (HipKernels, Vec<Load>))
        ensures
            r.0.spec_arch() == arch@,
            r.1@ == load_list(cache@, arch@),
    {
        let kernels = loaded_kernels();
        let ghost want = load_list(cache@, arch@);
        let mut loads: Vec<Load> = Vec::new();
        let mut i: usize = 0;
        while i < kernels.len()
            invariant
                i <= kernels.len(),
                kernels@ == model_kernels(),
                want == load_list(cache@, arch@),
                loads@ == want.take(i as int),
            decreases kernels.len() - i,
        {
            let kernel = kernels[i];
            loads.push(Load { kernel, cached: cache.contains(&arch, kernel) });
            i = i + 1;
            assert(loads@ =~= want.take(i as int));
        }
        assert(want.take(i as int) =~= want);
        (HipKernels { arch }, loads)
    }

    /// The architecture that the kernels are compiled for.
    pub fn arch(&self) -> (a: &String)
        ensures
            a@ == self.spec_arch(),
    {
        &self.arch
    }
}

impl HipKernels {
    /// Embedding gather of one token.
    pub fn launch_embed(&self, cols: i32) -> (l: Launch)
        requires
            0 <= cols,
        ensures
            l == per_element(Kernel::EmbedGather, cols as int),
            entry_point(l.kernel) == "embed_gather"@,
            thread_for_each(l, cols as int),
    {
        cover(Kernel::EmbedGather, cols)
    }

    /// RMS norm, one block per row.
    pub fn launch_rms_norm(&self, rows: i32) -> (l: Launch)
        requires
            0 <= rows,
        ensures
            l == (Launch {
                kernel: Kernel::RmsNorm,
                grid: (rows as u32, 1, 1),
                block: BLOCK,
                shared: 0,
            }),
            entry_point(l.kernel) == "rms_norm"@,
    {
        Launch { kernel: Kernel::RmsNorm, grid: (rows as u32, 1, 1), block: BLOCK, shared: 0 }
    }

    /// Per-head RMS norm of queries and keys, one block per row and head.
    pub fn launch_qk_norm(&self, rows: i32, n_heads: i32) -> (l: Launch)
        requires
            0 <= rows,
            0 <= n_heads,
        ensures
            l == (Launch {
                kernel: Kernel::QkNorm,
                grid: (rows as u32, n_heads as u32, 1),
                block: BLOCK,
                shared: 0,
            }),
            entry_point(l.kernel) == "qk_norm"@,
    {
        Launch {
            kernel: Kernel::QkNorm,
            grid: (rows as u32, n_heads as u32, 1),
            block: BLOCK,
            shared: 0,
        }
    }

    /// `out = silu(gate) * up`.
    pub fn launch_silu_mul(&self, n: i32) -> (l: Launch)
        requires
            0 <= n,
        ensures
            l == per_element(Kernel::SiluMul, n as int),
            entry_point(l.kernel) == "silu_mul"@,
            thread_for_each(l, n as int),
    {
        cover(Kernel::SiluMul, n)
    }

    /// `x += y`.
    pub fn launch_add(&self, n: i32) -> (l: Launch)
        requires
            0 <= n,
        ensures
            l == per_element(Kernel::Add, n as int),
            entry_point(l.kernel) == "add"@,
            thread_for_each(l, n as int),
    {
        cover(Kernel::Add, n)
    }

    /// Adds a bias to every row.
    pub fn launch_add_bias(&self, rows: i32, cols: i32) -> (l: Launch)
        requires
            0 <= rows,
            0 <= cols,
            rows * cols <= i32::MAX,
        ensures
            l == per_element(Kernel::AddBias, rows * cols),
            entry_point(l.kernel) == "add_bias"@,
            thread_for_each(l, rows * cols),
    {
        proof {
            assert(0 <= rows * cols) by (nonlinear_arith)
                requires
                    0 <= rows,
                    0 <= cols,
            ;
        }
        cover(Kernel::AddBias, rows * cols)
    }

    /// Stores one row of keys or values, in one block.
    pub fn launch_kv_store(&self) -> (l: Launch)
        ensures
            l == (Launch { kernel: Kernel::KvStore, grid: (1, 1, 1), block: BLOCK, shared: 0 }),
            entry_point(l.kernel) == "kv_store"@,
    {
        Launch { kernel: Kernel::KvStore, grid: (1, 1, 1), block: BLOCK, shared: 0 }
    }

    /// Decode attention of one row, one block per head. The scores of the whole context are
    /// in shared memory, so that a captured launch replays at later positions.
    pub fn launch_attn_decode(&self, n_heads: i32, max_seq: i32) -> (r: Result<Launch, LaunchError>)
        requires
            0 <= n_heads,
            0 <= max_seq,
        ensures
            match r {
                Ok(l) => max_seq + 256 <= MAX_SMEM_FLOATS && l == (Launch {
                    kernel: Kernel::AttnDecode,
                    grid: (n_heads as u32, 1, 1),
                    block: BLOCK,
                    shared: ((max_seq + 256) * 4) as u32,
                }),
                Err(e) => max_seq + 256 > MAX_SMEM_FLOATS && e == (LaunchError::SharedMemory {
                    floats: (max_seq + 256) as u32,
                }),
            },
            r is Ok ==> entry_point(r->Ok_0.kernel) == "attn_decode"@,
    {
        let floats: u32 = max_seq as u32 + 256;
        if floats > MAX_SMEM_FLOATS {
            return Err(LaunchError::SharedMemory { floats });
        }
        Ok(Launch {
            kernel: Kernel::AttnDecode,
            grid: (n_heads as u32, 1, 1),
            block: BLOCK,
            shared: floats * 4,
        })
    }

    /// Merges the two parts of the queries.
    pub fn launch_mla_assemble_q(&self, n_heads: i32, nope: i32, rope: i32) -> (l: Launch)
        requires
            0 <= n_heads,
            0 <= nope,
            0 <= rope,
            nope + rope <= i32::MAX,
            n_heads * (nope + rope) <= i32::MAX,
        ensures
            l == per_element(Kernel::MlaAssembleQ, n_heads * (nope + rope)),
            entry_point(l.kernel) == "mla_assemble_q"@,
            thread_for_each(l, n_heads * (nope + rope)),
    {
        proof {
            assert(0 <= n_heads * (nope + rope)) by (nonlinear_arith)
                requires
                    0 <= n_heads,
                    0 <= nope,
                    0 <= rope,
            ;
        }
        cover(Kernel::MlaAssembleQ, n_heads * (nope + rope))
    }

    /// Expands one row of latent keys and values into the per-head caches.
    pub fn launch_mla_assemble_kv(
        &self,
        n_heads: i32,
        nope: i32,
        rope: i32,
        v_hd: i32,
    ) -> (l: Launch)
        requires
            0 <= n_heads,
            0 <= nope,
            0 <= rope,
            0 <= v_hd,
            nope + rope <= i32::MAX,
            n_heads * (nope + rope) <= i32::MAX,
            n_heads * v_hd <= i32::MAX,
        ensures
            l == per_element(
                Kernel::MlaAssembleKv,
                vstd::math::max(n_heads * (nope + rope), n_heads * v_hd),
            ),
            entry_point(l.kernel) == "mla_assemble_kv"@,
            thread_for_each(l, vstd::math::max(n_heads * (nope + rope), n_heads * v_hd)),
    {
        proof {
            assert(0 <= n_heads * (nope + rope) && 0 <= n_heads * v_hd) by (nonlinear_arith)
                requires
                    0 <= n_heads,
                    0 <= nope,
                    0 <= rope,
                    0 <= v_hd,
            ;
        }
        let k: i32 = n_heads * (nope + rope);
        let v: i32 = n_heads * v_hd;
        if k > v {
            cover(Kernel::MlaAssembleKv, k)
        } else {
            cover(Kernel::MlaAssembleKv, v)
        }
    }

    /// Low-rank decode attention of one row, one block per head.
    pub fn launch_mla_attn_decode(
        &self,
        n_heads: i32,
        max_seq: i32,
    ) -> (r: Result<Launch, LaunchError>)
        requires
            0 <= n_heads,
            0 <= max_seq,
        ensures
            match r {
                Ok(l) => max_seq + 256 <= MAX_SMEM_FLOATS && l == (Launch {
                    kernel: Kernel::MlaAttnDecode,
                    grid: (n_heads as u32, 1, 1),
                    block: BLOCK,
                    shared: ((max_seq + 256) * 4) as u32,
                }),
                Err(e) => max_seq + 256 > MAX_SMEM_FLOATS && e == (LaunchError::SharedMemory {
                    floats: (max_seq + 256) as u32,
                }),
            },
            r is Ok ==> entry_point(r->Ok_0.kernel) == "mla_attn_decode"@,
    {
        let floats: u32 = max_seq as u32 + 256;
        if floats > MAX_SMEM_FLOATS {
            return Err(LaunchError::SharedMemory { floats });
        }
        Ok(Launch {
            kernel: Kernel::MlaAttnDecode,
            grid: (n_heads as u32, 1, 1),
            block: BLOCK,
            shared: floats * 4,
        })
    }

    /// Merges the two parts of the queries of all rows.
    pub fn launch_mla_assemble_q_batched(
        &self,
        batch: i32,
        n_heads: i32,
        nope: i32,
        rope: i32,
    ) -> (l: Launch)
        requires
            0 <= batch,
            0 <= n_heads,
            0 <= nope,
            0 <= rope,
            nope + rope <= i32::MAX,
            batch * n_heads <= i32::MAX,
            batch * n_heads * (nope + rope) <= i32::MAX,
        ensures
            l == per_element(Kernel::MlaAssembleQBatched, batch * n_heads * (nope + rope)),
            entry_point(l.kernel) == "mla_assemble_q_batched"@,
            thread_for_each(l, batch * n_heads * (nope + rope)),
    {
        proof {
            lemma_product3(batch as int, n_heads as int, nope + rope);
        }
        cover(Kernel::MlaAssembleQBatched, batch * n_heads * (nope + rope))
    }

    /// Extracts the latent columns of all rows.
    pub fn launch_mla_extract_kv_lora(&self, batch: i32, kv_lora_rank: i32) -> (l: Launch)
        requires
            0 <= batch,
            0 <= kv_lora_rank,
            batch * kv_lora_rank <= i32::MAX,
        ensures
            l == per_element(Kernel::MlaExtractKvLora, batch * kv_lora_rank),
            entry_point(l.kernel) == "mla_extract_kv_lora"@,
            thread_for_each(l, batch * kv_lora_rank),
    {
        proof {
            assert(0 <= batch * kv_lora_rank) by (nonlinear_arith)
                requires
                    0 <= batch,
                    0 <= kv_lora_rank,
            ;
        }
        cover(Kernel::MlaExtractKvLora, batch * kv_lora_rank)
    }

    /// Extracts the shared rotary columns of all rows.
    pub fn launch_mla_extract_k_rope(&self, batch: i32, rope: i32) -> (l: Launch)
        requires
            0 <= batch,
            0 <= rope,
            batch * rope <= i32::MAX,
        ensures
            l == per_element(Kernel::MlaExtractKRope, batch * rope),
            entry_point(l.kernel) == "mla_extract_k_rope"@,
            thread_for_each(l, batch * rope),
    {
        proof {
            assert(0 <= batch * rope) by (nonlinear_arith)
                requires
                    0 <= batch,
                    0 <= rope,
            ;
        }
        cover(Kernel::MlaExtractKRope, batch * rope)
    }

    /// Expands latent keys and values of all rows into the per-head caches.
    pub fn launch_mla_assemble_kv_batched(
        &self,
        batch: i32,
        n_heads: i32,
        nope: i32,
        rope: i32,
        v_hd: i32,
    ) -> (l: Launch)
        requires
            0 <= batch,
            0 <= n_heads,
            0 <= nope,
            0 <= rope,
            0 <= v_hd,
            nope + rope <= i32::MAX,
            batch * n_heads <= i32::MAX,
            batch * n_heads * (nope + rope) <= i32::MAX,
            batch * n_heads * v_hd <= i32::MAX,
        ensures
            l == per_element(
                Kernel::MlaAssembleKvBatched,
                vstd::math::max(batch * n_heads * (nope + rope), batch * n_heads * v_hd),
            ),
            entry_point(l.kernel) == "mla_assemble_kv_batched"@,
            thread_for_each(
                l,
                vstd::math::max(batch * n_heads * (nope + rope), batch * n_heads * v_hd),
            ),
    {
        proof {
            lemma_product3(batch as int, n_heads as int, nope + rope);
            lemma_product3(batch as int, n_heads as int, v_hd as int);
        }
        let k: i32 = batch * n_heads * (nope + rope);
        let v: i32 = batch * n_heads * v_hd;
        if k > v {
            cover(Kernel::MlaAssembleKvBatched, k)
        } else {
            cover(Kernel::MlaAssembleKvBatched, v)
        }
    }

    /// Low-rank decode attention of all rows, one block per row and head.
    pub fn launch_mla_attn_decode_batched(
        &self,
        batch: i32,
        n_heads: i32,
        max_seq: i32,
    ) -> (l: Launch)
        requires
            0 <= batch,
            0 <= n_heads,
            0 <= max_seq,
            batch * n_heads <= i32::MAX,
            (max_seq + 256) * 4 <= u32::MAX,
        ensures
            l == (Launch {
                kernel: Kernel::MlaAttnDecodeBatched,
                grid: ((batch * n_heads) as u32, 1, 1),
                block: BLOCK,
                shared: ((max_seq + 256) * 4) as u32,
            }),
            entry_point(l.kernel) == "mla_attn_decode_batched"@,
    {
        proof {
            assert(0 <= batch * n_heads) by (nonlinear_arith)
                requires
                    0 <= batch,
                    0 <= n_heads,
            ;
        }
        let grid: u32 = (batch * n_heads) as u32;
        let shared: u32 = (max_seq as u32 + 256) * 4;
        Launch {
            kernel: Kernel::MlaAttnDecodeBatched,
            grid: (grid, 1, 1),
            block: BLOCK,
            shared: shared,
        }
    }

    /// Rotates the queries and keys of one row.
    pub fn launch_rope(&self, n_heads: i32, n_kv_heads: i32, head_dim: i32) -> (l: Launch)
        requires
            0 <= n_heads,
            0 <= n_kv_heads,
            0 <= head_dim,
            vstd::math::max(n_heads as int, n_kv_heads as int) * head_dim <= i32::MAX,
        ensures
            l == per_element(
                Kernel::Rope,
                vstd::math::max(n_heads as int, n_kv_heads as int) * head_dim,
            ),
            entry_point(l.kernel) == "rope"@,
            thread_for_each(l, vstd::math::max(n_heads as int, n_kv_heads as int) * head_dim),
    {
        let heads: i32 = if n_heads > n_kv_heads {
            n_heads
        } else {
            n_kv_heads
        };
        proof {
            assert(0 <= heads * head_dim) by (nonlinear_arith)
                requires
                    0 <= heads,
                    0 <= head_dim,
            ;
        }
        cover(Kernel::Rope, heads * head_dim)
    }

    /// Embedding gather, one row of blocks per token.
    pub fn launch_embed_batched(&self, cols: i32, batch: i32) -> (l: Launch)
        requires
            0 <= cols,
            0 <= batch,
        ensures
            l == (Launch {
                kernel: Kernel::EmbedBatched,
                grid: (blocks_for(cols as int) as u32, batch as u32, 1),
                block: BLOCK,
                shared: 0,
            }),
            entry_point(l.kernel) == "embed_batched"@,
    {
        let l = cover(Kernel::EmbedBatched, cols);
        Launch { grid: (l.grid.0, batch as u32, 1), ..l }
    }

    /// Rotates the queries and keys of all rows.
    pub fn launch_rope_batched(
        &self,
        batch: i32,
        n_heads: i32,
        n_kv_heads: i32,
        head_dim: i32,
    ) -> (l: Launch)
        requires
            0 <= batch,
            0 <= n_heads,
            0 <= n_kv_heads,
            0 <= head_dim,
            batch * vstd::math::max(n_heads as int, n_kv_heads as int) <= i32::MAX,
            batch * vstd::math::max(n_heads as int, n_kv_heads as int) * head_dim <= i32::MAX,
        ensures
            l == per_element(
                Kernel::RopeBatched,
                batch * vstd::math::max(n_heads as int, n_kv_heads as int) * head_dim,
            ),
            entry_point(l.kernel) == "rope_batched"@,
            thread_for_each(
                l,
                batch * vstd::math::max(n_heads as int, n_kv_heads as int) * head_dim,
            ),
    {
        let heads: i32 = if n_heads > n_kv_heads {
            n_heads
        } else {
            n_kv_heads
        };
        proof {
            lemma_product3(batch as int, heads as int, head_dim as int);
        }
        cover(Kernel::RopeBatched, batch * heads * head_dim)
    }

    /// Stores keys or values of all rows.
    pub fn launch_kv_store_batched(&self, batch: i32, kv_heads: i32, head_dim: i32) -> (l: Launch)
        requires
            0 <= batch,
            0 <= kv_heads,
            0 <= head_dim,
            batch * kv_heads <= i32::MAX,
            batch * kv_heads * head_dim <= i32::MAX,
        ensures
            l == per_element(Kernel::KvStoreBatched, batch * kv_heads * head_dim),
            entry_point(l.kernel) == "kv_store_batched"@,
            thread_for_each(l, batch * kv_heads * head_dim),
    {
        proof {
            lemma_product3(batch as int, kv_heads as int, head_dim as int);
        }
        cover(Kernel::KvStoreBatched, batch * kv_heads * head_dim)
    }

    /// Decode attention of all rows, one block per row and head.
    pub fn launch_attn_decode_batched(&self, batch: i32, n_heads: i32, max_seq: i32) -> (l: Launch)
        requires
            0 <= batch,
            0 <= n_heads,
            0 <= max_seq,
            batch * n_heads <= i32::MAX,
            (max_seq + 256) * 4 <= u32::MAX,
        ensures
            l == (Launch {
                kernel: Kernel::AttnDecodeBatched,
                grid: ((batch * n_heads) as u32, 1, 1),
                block: BLOCK,
                shared: ((max_seq + 256) * 4) as u32,
            }),
            entry_point(l.kernel) == "attn_decode_batched"@,
    {
        proof {
            assert(0 <= batch * n_heads) by (nonlinear_arith)
                requires
                    0 <= batch,
                    0 <= n_heads,
            ;
        }
        let grid: u32 = (batch * n_heads) as u32;
        let shared: u32 = (max_seq as u32 + 256) * 4;
        Launch {
            kernel: Kernel::AttnDecodeBatched,
            grid: (grid, 1, 1),
            block: BLOCK,
            shared: shared,
        }
    }

    /// Greedy sampling, one block per row.
    pub fn launch_argmax_batched(&self, batch: i32) -> (l: Launch)
        requires
            0 <= batch,
        ensures
            l == (Launch {
                kernel: Kernel::ArgmaxBatched,
                grid: (batch as u32, 1, 1),
                block: BLOCK,
                shared: 0,
            }),
            entry_point(l.kernel) == "argmax_batched"@,
    {
        Launch {
            kernel: Kernel::ArgmaxBatched,
            grid: (batch as u32, 1, 1),
            block: BLOCK,
            shared: 0,
        }
    }

    /// Casts to half precision.
    pub fn launch_cast_f32_f16(&self, n: i32) -> (l: Launch)
        requires
            0 <= n,
        ensures
            l == per_element(Kernel::CastToHalf, n as int),
            entry_point(l.kernel) == "cast_f32_f16"@,
            thread_for_each(l, n as int),
    {
        cover(Kernel::CastToHalf, n)
    }

    /// Casts from half precision.
    pub fn launch_cast_f16_f32(&self, n: i32) -> (l: Launch)
        requires
            0 <= n,
        ensures
            l == per_element(Kernel::CastFromHalf, n as int),
            entry_point(l.kernel) == "cast_f16_f32"@,
            thread_for_each(l, n as int),
    {
        cover(Kernel::CastFromHalf, n)
    }

    /// Matrix-vector products with half-precision weights: a warp per output, eight to a block.
    /// A row of activations is staged in shared memory.
    pub fn launch_gemv_f16(&self, n: i32, d: i32, batch: i32) -> (l: Launch)
        requires
            0 <= n,
            0 <= d,
            0 <= batch,
            d * 4 <= GEMV_STAGE_BYTES,
        ensures
            l == (Launch {
                kernel: Kernel::GemvHalf,
                grid: (((n + 7) / 8) as u32, batch as u32, 1),
                block: BLOCK,
                shared: (d * 4) as u32,
            }),
            entry_point(l.kernel) == "gemv_f16"@,
    {
        let t: u32 = n as u32;
        let full: u32 = t / 8;
        let blocks: u32 = if t % 8 == 0 {
            full
        } else {
            full + 1
        };
        Launch {
            kernel: Kernel::GemvHalf,
            grid: (blocks, batch as u32, 1),
            block: BLOCK,
            shared: d as u32 * 4,
        }
    }

    /// Embedding gather from a half-precision table.
    pub fn launch_embed_f16(&self, cols: i32, batch: i32) -> (l: Launch)
        requires
            0 <= cols,
            0 <= batch,
        ensures
            l == (Launch {
                kernel: Kernel::EmbedGatherHalf,
                grid: (blocks_for(cols as int) as u32, batch as u32, 1),
                block: BLOCK,
                shared: 0,
            }),
            entry_point(l.kernel) == "embed_gather_f16"@,
    {
        let l = cover(Kernel::EmbedGatherHalf, cols);
        Launch { grid: (l.grid.0, batch as u32, 1), ..l }
    }

    /// Prefill attention of a run of rows of one sequence, one block per head.
    pub fn launch_attn_prefill_f16(
        &self,
        c: i32,
        n_heads: i32,
        head_dim: i32,
    ) -> (r: Result<Launch, LaunchError>)
        requires
            0 <= n_heads,
        ensures
            match r {
                Ok(l) => c <= 64 && head_dim <= 64 && l == (Launch {
                    kernel: Kernel::AttnPrefillHalf,
                    grid: (n_heads as u32, 1, 1),
                    block: BLOCK,
                    shared: 0,
                }),
                Err(e) => (c > 64 || head_dim > 64) && e == (LaunchError::PrefillGeometry {
                    rows: c,
                    head_dim,
                }),
            },
            r is Ok ==> entry_point(r->Ok_0.kernel) == "attn_prefill_f16"@,
    {
        if c > 64 || head_dim > 64 {
            return Err(LaunchError::PrefillGeometry { rows: c, head_dim });
        }
        Ok(
            Launch {
                kernel: Kernel::AttnPrefillHalf,
                grid: (n_heads as u32, 1, 1),
                block: BLOCK,
                shared: 0,
            },
        )
    }

    /// Stores keys or values of all rows in half precision.
    pub fn launch_kv_store_batched_f16(
        &self,
        batch: i32,
        kv_heads: i32,
        head_dim: i32,
    ) -> (l: Launch)
        requires
            0 <= batch,
            0 <= kv_heads,
            0 <= head_dim,
            batch * kv_heads <= i32::MAX,
            batch * kv_heads * head_dim <= i32::MAX,
        ensures
            l == per_element(Kernel::KvStoreBatchedHalf, batch * kv_heads * head_dim),
            entry_point(l.kernel) == "kv_store_batched_f16"@,
            thread_for_each(l, batch * kv_heads * head_dim),
    {
        proof {
            lemma_product3(batch as int, kv_heads as int, head_dim as int);
        }
        cover(Kernel::KvStoreBatchedHalf, batch * kv_heads * head_dim)
    }

    /// Stores keys or values of all rows in the page pool.
    pub fn launch_kv_store_paged(&self, batch: i32, kv_heads: i32, head_dim: i32) -> (l: Launch)
        requires
            0 <= batch,
            0 <= kv_heads,
            0 <= head_dim,
            batch * kv_heads <= i32::MAX,
            batch * kv_heads * head_dim <= i32::MAX,
        ensures
            l == per_element(Kernel::KvStorePaged, batch * kv_heads * head_dim),
            entry_point(l.kernel) == "kv_store_paged"@,
            thread_for_each(l, batch * kv_heads * head_dim),
    {
        proof {
            lemma_product3(batch as int, kv_heads as int, head_dim as int);
        }
        cover(Kernel::KvStorePaged, batch * kv_heads * head_dim)
    }

    /// Stores keys or values of all rows in a half-precision page pool.
    pub fn launch_kv_store_paged_f16(&self, batch: i32, kv_heads: i32, head_dim: i32) -> (l: Launch)
        requires
            0 <= batch,
            0 <= kv_heads,
            0 <= head_dim,
            batch * kv_heads <= i32::MAX,
            batch * kv_heads * head_dim <= i32::MAX,
        ensures
            l == per_element(Kernel::KvStorePagedHalf, batch * kv_heads * head_dim),
            entry_point(l.kernel) == "kv_store_paged_f16"@,
            thread_for_each(l, batch * kv_heads * head_dim),
    {
        proof {
            lemma_product3(batch as int, kv_heads as int, head_dim as int);
        }
        cover(Kernel::KvStorePagedHalf, batch * kv_heads * head_dim)
    }

    /// Decode attention of all rows over a half-precision page pool.
    pub fn launch_attn_decode_paged_f16_gqa(
        &self,
        batch: i32,
        n_heads: i32,
        tokens_per_page: i32,
        max_pages: i32,
    ) -> (l: Launch)
        requires
            0 <= batch,
            0 <= n_heads,
            0 <= tokens_per_page,
            0 <= max_pages,
            batch * n_heads <= i32::MAX,
            (max_pages * tokens_per_page + 256) * 4 <= i32::MAX,
        ensures
            l == (Launch {
                kernel: Kernel::AttnDecodePagedHalfGqa,
                grid: ((batch * n_heads) as u32, 1, 1),
                block: BLOCK,
                shared: ((max_pages * tokens_per_page + 256) * 4) as u32,
            }),
            entry_point(l.kernel) == "attn_decode_paged_f16_gqa"@,
    {
        proof {
            assert(0 <= batch * n_heads) by (nonlinear_arith)
                requires
                    0 <= batch,
                    0 <= n_heads,
            ;
            assert(0 <= max_pages * tokens_per_page) by (nonlinear_arith)
                requires
                    0 <= max_pages,
                    0 <= tokens_per_page,
            ;
        }
        let grid: u32 = (batch * n_heads) as u32;
        let shared: u32 = ((max_pages * tokens_per_page + 256) * 4) as u32;
        Launch {
            kernel: Kernel::AttnDecodePagedHalfGqa,
            grid: (grid, 1, 1),
            block: BLOCK,
            shared: shared,
        }
    }

    /// Expands latent keys and values of all rows into the page pools.
    pub fn launch_kv_store_paged_mla(
        &self,
        batch: i32,
        heads: i32,
        nope: i32,
        rope: i32,
        v_hd: i32,
    ) -> (l: Launch)
        requires
            0 <= batch,
            0 <= heads,
            0 <= nope,
            0 <= rope,
            0 <= v_hd,
            nope + rope <= i32::MAX,
            batch * heads <= i32::MAX,
            batch * heads * (nope + rope) <= i32::MAX,
            batch * heads * v_hd <= i32::MAX,
        ensures
            l == per_element(
                Kernel::KvStorePagedMla,
                vstd::math::max(batch * heads * (nope + rope), batch * heads * v_hd),
            ),
            entry_point(l.kernel) == "kv_store_paged_mla"@,
            thread_for_each(
                l,
                vstd::math::max(batch * heads * (nope + rope), batch * heads * v_hd),
            ),
    {
        proof {
            lemma_product3(batch as int, heads as int, nope + rope);
            lemma_product3(batch as int, heads as int, v_hd as int);
        }
        let k: i32 = batch * heads * (nope + rope);
        let v: i32 = batch * heads * v_hd;
        if k > v {
            cover(Kernel::KvStorePagedMla, k)
        } else {
            cover(Kernel::KvStorePagedMla, v)
        }
    }

    /// Low-rank decode attention of all rows over the page pools.
    pub fn launch_attn_decode_paged_mla_batched(
        &self,
        batch: i32,
        n_heads: i32,
        tokens_per_page: i32,
        max_pages: i32,
    ) -> (l: Launch)
        requires
            0 <= batch,
            0 <= n_heads,
            0 <= tokens_per_page,
            0 <= max_pages,
            batch * n_heads <= i32::MAX,
            (max_pages * tokens_per_page + 256) * 4 <= i32::MAX,
        ensures
            l == (Launch {
                kernel: Kernel::AttnDecodePagedMlaBatched,
                grid: ((batch * n_heads) as u32, 1, 1),
                block: BLOCK,
                shared: ((max_pages * tokens_per_page + 256) * 4) as u32,
            }),
            entry_point(l.kernel) == "attn_decode_paged_mla_batched"@,
    {
        proof {
            assert(0 <= batch * n_heads) by (nonlinear_arith)
                requires
                    0 <= batch,
                    0 <= n_heads,
            ;
            assert(0 <= max_pages * tokens_per_page) by (nonlinear_arith)
                requires
                    0 <= max_pages,
                    0 <= tokens_per_page,
            ;
        }
        let grid: u32 = (batch * n_heads) as u32;
        let shared: u32 = ((max_pages * tokens_per_page + 256) * 4) as u32;
        Launch {
            kernel: Kernel::AttnDecodePagedMlaBatched,
            grid: (grid, 1, 1),
            block: BLOCK,
            shared: shared,
        }
    }

    /// Decode attention of all rows over the page pool.
    pub fn launch_attn_decode_paged(
        &self,
        batch: i32,
        n_heads: i32,
        tokens_per_page: i32,
        max_pages: i32,
    ) -> (l: Launch)
        requires
            0 <= batch,
            0 <= n_heads,
            0 <= tokens_per_page,
            0 <= max_pages,
            batch * n_heads <= i32::MAX,
            (max_pages * tokens_per_page + 256) * 4 <= i32::MAX,
        ensures
            l == (Launch {
                kernel: Kernel::AttnDecodePaged,
                grid: ((batch * n_heads) as u32, 1, 1),
                block: BLOCK,
                shared: ((max_pages * tokens_per_page + 256) * 4) as u32,
            }),
            entry_point(l.kernel) == "attn_decode_paged"@,
    {
        proof {
            assert(0 <= batch * n_heads) by (nonlinear_arith)
                requires
                    0 <= batch,
                    0 <= n_heads,
            ;
            assert(0 <= max_pages * tokens_per_page) by (nonlinear_arith)
                requires
                    0 <= max_pages,
                    0 <= tokens_per_page,
            ;
        }
        let grid: u32 = (batch * n_heads) as u32;
        let shared: u32 = ((max_pages * tokens_per_page + 256) * 4) as u32;
        Launch { kernel: Kernel::AttnDecodePaged, grid: (grid, 1, 1), block: BLOCK, shared: shared }
    }

    /// Grouped-query decode attention of all rows, one block per row and key head. The kernel
    /// has 256 threads and at most 16 groups.
    pub fn launch_attn_decode_batched_f16_gqa(
        &self,
        batch: i32,
        n_heads: i32,
        n_kv_heads: i32,
        head_dim: i32,
    ) -> (r: Result<Launch, LaunchError>)
        requires
            0 <= batch,
            0 <= n_heads,
            0 < n_kv_heads,
            batch * n_kv_heads <= i32::MAX,
        ensures
            match r {
                Ok(l) => gqa_supported(n_heads as int, n_kv_heads as int, head_dim as int) && l
                    == (Launch {
                    kernel: Kernel::AttnDecodeBatchedHalfGqa,
                    grid: ((batch * n_kv_heads) as u32, 1, 1),
                    block: BLOCK,
                    shared: ((n_heads / n_kv_heads) * 4096) as u32,
                }),
                Err(e) => !gqa_supported(n_heads as int, n_kv_heads as int, head_dim as int) && e
                    == (LaunchError::GqaGeometry {
                    heads: n_heads,
                    kv_heads: n_kv_heads,
                    head_dim,
                }),
            },
            r is Ok ==> entry_point(r->Ok_0.kernel) == "attn_decode_batched_f16_gqa"@,
    {
        let heads: u32 = n_heads as u32;
        let kv_heads: u32 = n_kv_heads as u32;
        let groups: u32 = heads / kv_heads;
        let dim: u32 = if head_dim > 0 {
            head_dim as u32
        } else {
            0
        };
        if dim == 0 || dim > 256 || 256 % dim != 0 || dim % 8 != 0 || heads % kv_heads != 0
            || groups == 0 || groups > 16 {
            return Err(
                LaunchError::GqaGeometry { heads: n_heads, kv_heads: n_kv_heads, head_dim },
            );
        }
        proof {
            assert(0 <= batch * n_kv_heads) by (nonlinear_arith)
                requires
                    0 <= batch,
                    0 < n_kv_heads,
            ;
        }
        let grid: u32 = (batch * n_kv_heads) as u32;
        // Scores of 256 positions per group, and three merge arrays of the same size.
        let shared: u32 = (groups * 256 + groups * 768) * 4;
        Ok(
            Launch {
                kernel: Kernel::AttnDecodeBatchedHalfGqa,
                grid: (grid, 1, 1),
                block: BLOCK,
                shared,
            },
        )
    }

    /// Routing of one token, in one block.
    pub fn launch_moe_router(&self, ne: i32) -> (l: Launch)
        requires
            0 <= ne,
            ne * 4 <= u32::MAX,
        ensures
            l == (Launch {
                kernel: Kernel::MoeRouter,
                grid: (1, 1, 1),
                block: BLOCK,
                shared: (ne * 4) as u32,
            }),
            entry_point(l.kernel) == "moe_router"@,
    {
        Launch { kernel: Kernel::MoeRouter, grid: (1, 1, 1), block: BLOCK, shared: ne as u32 * 4 }
    }

    /// Packs the weights of the selected experts.
    pub fn launch_moe_gather_weights(
        &self,
        inter: i32,
        d: i32,
        topk: i32,
    ) -> (r: Result<Launch, LaunchError>)
        requires
            0 <= inter,
            0 <= d,
            0 <= topk,
        ensures
            match r {
                Ok(l) => topk * inter * d <= u32::MAX && l == per_element(
                    Kernel::MoeGatherWeights,
                    topk * inter * d,
                ),
                Err(e) => topk * inter * d > u32::MAX && e == LaunchError::GridTooLarge,
            },
            r is Ok ==> entry_point(r->Ok_0.kernel) == "moe_gather_weights"@,
    {
        proof {
            lemma_product3_bound(topk as int, inter as int, d as int);
        }
        let total: u128 = topk as u128 * inter as u128 * d as u128;
        if total > u32::MAX as u128 {
            return Err(LaunchError::GridTooLarge);
        }
        let t: u32 = total as u32;
        let full: u32 = t / 256;
        let blocks: u32 = if t % 256 == 0 {
            full
        } else {
            full + 1
        };
        Ok(
            Launch {
                kernel: Kernel::MoeGatherWeights,
                grid: (blocks, 1, 1),
                block: BLOCK,
                shared: 0,
            },
        )
    }

    /// Adds the weighted expert outputs of one token.
    pub fn launch_moe_accumulate(&self, d: i32) -> (l: Launch)
        requires
            0 <= d,
        ensures
            l == per_element(Kernel::MoeAccumulate, d as int),
            entry_point(l.kernel) == "moe_accumulate"@,
            thread_for_each(l, d as int),
    {
        cover(Kernel::MoeAccumulate, d)
    }

    /// Routing, one block per token. The block size is part of the kernel: its reduction has
    /// 256 lanes.
    pub fn launch_moe_router_batched(&self, ne: i32, batch: i32) -> (l: Launch)
        requires
            0 <= ne,
            0 <= batch,
            ne * 4 <= u32::MAX,
        ensures
            l == (Launch {
                kernel: Kernel::MoeRouterBatched,
                grid: (batch as u32, 1, 1),
                block: BLOCK,
                shared: (ne * 4) as u32,
            }),
            entry_point(l.kernel) == "moe_router_batched"@,
    {
        Launch {
            kernel: Kernel::MoeRouterBatched,
            grid: (batch as u32, 1, 1),
            block: BLOCK,
            shared: ne as u32 * 4,
        }
    }

    /// Histogram of the routed experts.
    pub fn launch_moe_count_experts(&self, batch: i32, topk: i32) -> (l: Launch)
        requires
            0 <= batch,
            0 <= topk,
            batch * topk <= i32::MAX,
        ensures
            l == per_element(Kernel::MoeCountExperts, batch * topk),
            entry_point(l.kernel) == "moe_count_experts"@,
            thread_for_each(l, batch * topk),
    {
        proof {
            assert(0 <= batch * topk) by (nonlinear_arith)
                requires
                    0 <= batch,
                    0 <= topk,
            ;
        }
        cover(Kernel::MoeCountExperts, batch * topk)
    }

    /// Packs the routed rows expert by expert.
    pub fn launch_moe_gather_rows(&self, batch: i32, topk: i32) -> (l: Launch)
        requires
            0 <= batch,
            0 <= topk,
            batch * topk <= i32::MAX,
        ensures
            l == per_element(Kernel::MoeGatherRows, batch * topk),
            entry_point(l.kernel) == "moe_gather_rows"@,
            thread_for_each(l, batch * topk),
    {
        proof {
            assert(0 <= batch * topk) by (nonlinear_arith)
                requires
                    0 <= batch,
                    0 <= topk,
            ;
        }
        cover(Kernel::MoeGatherRows, batch * topk)
    }

    /// Gate and up projections of all routed rows.
    pub fn launch_moe_grouped_gate_up(&self, rows: i32, einter: i32, half: bool) -> (l: Launch)
        requires
            0 <= rows,
            0 <= einter,
        ensures
            l == (Launch {
                kernel: if half {
                        Kernel::MoeGroupedGateUpHalf
                    } else {
                        Kernel::MoeGroupedGateUp
                    },
                grid: (rows as u32, einter as u32, 1),
                block: 128,
                shared: 0,
            }),
    {
        Launch {
            kernel: if half {
                Kernel::MoeGroupedGateUpHalf
            } else {
                Kernel::MoeGroupedGateUp
            },
            grid: (rows as u32, einter as u32, 1),
            block: 128,
            shared: 0,
        }
    }

    /// Down projection of all routed rows.
    pub fn launch_moe_grouped_down(&self, rows: i32, d: i32, half: bool) -> (l: Launch)
        requires
            0 <= rows,
            0 <= d,
        ensures
            l == (Launch {
                kernel: if half {
                        Kernel::MoeGroupedDownHalf
                    } else {
                        Kernel::MoeGroupedDown
                    },
                grid: (rows as u32, d as u32, 1),
                block: 128,
                shared: 0,
            }),
    {
        Launch {
            kernel: if half {
                Kernel::MoeGroupedDownHalf
            } else {
                Kernel::MoeGroupedDown
            },
            grid: (rows as u32, d as u32, 1),
            block: 128,
            shared: 0,
        }
    }

    /// Gate and up projections of all routed rows from packed weights.
    pub fn launch_moe_grouped_gate_up_q4(&self, rows: i32, einter: i32) -> (l: Launch)
        requires
            0 <= rows,
            0 <= einter,
        ensures
            l == (Launch {
                kernel: Kernel::MoeGroupedGateUpQ4,
                grid: (rows as u32, einter as u32, 1),
                block: 128,
                shared: 0,
            }),
            entry_point(l.kernel) == "moe_grouped_gate_up_q4"@,
    {
        Launch {
            kernel: Kernel::MoeGroupedGateUpQ4,
            grid: (rows as u32, einter as u32, 1),
            block: 128,
            shared: 0,
        }
    }

    /// Down projection of all routed rows from packed weights.
    pub fn launch_moe_grouped_down_q4(&self, rows: i32, d: i32) -> (l: Launch)
        requires
            0 <= rows,
            0 <= d,
        ensures
            l == (Launch {
                kernel: Kernel::MoeGroupedDownQ4,
                grid: (rows as u32, d as u32, 1),
                block: 128,
                shared: 0,
            }),
            entry_point(l.kernel) == "moe_grouped_down_q4"@,
    {
        Launch {
            kernel: Kernel::MoeGroupedDownQ4,
            grid: (rows as u32, d as u32, 1),
            block: 128,
            shared: 0,
        }
    }

    /// Adds the expert outputs of all tokens in a fixed order; at least one block.
    pub fn launch_moe_scatter_all(&self, b: i32, d: i32) -> (l: Launch)
        requires
            0 <= b,
            0 <= d,
            b * d <= i32::MAX,
        ensures
            l == (Launch {
                kernel: Kernel::MoeScatterAll,
                grid: (vstd::math::max(blocks_for(b * d), 1) as u32, 1, 1),
                block: BLOCK,
                shared: 0,
            }),
            entry_point(l.kernel) == "moe_scatter_all"@,
    {
        proof {
            assert(0 <= b * d) by (nonlinear_arith)
                requires
                    0 <= b,
                    0 <= d,
            ;
        }
        let l = cover(Kernel::MoeScatterAll, b * d);
        if l.grid.0 == 0 {
            return Launch { grid: (1, 1, 1), ..l };
        }
        l
    }

    /// Adds the outputs of one expert's rows.
    pub fn launch_moe_scatter_add(&self, cnt: i32, d: i32) -> (l: Launch)
        requires
            0 <= cnt,
            0 <= d,
            cnt * d <= i32::MAX,
        ensures
            l == per_element(Kernel::MoeScatterAdd, cnt * d),
            entry_point(l.kernel) == "moe_scatter_add"@,
            thread_for_each(l, cnt * d),
    {
        proof {
            assert(0 <= cnt * d) by (nonlinear_arith)
                requires
                    0 <= cnt,
                    0 <= d,
            ;
        }
        cover(Kernel::MoeScatterAdd, cnt * d)
    }

    /// Exclusive prefix sum of the expert counts, in one block of one thread per expert.
    pub fn launch_moe_prefix_sum(&self, ne: i32) -> (l: Launch)
        requires
            0 <= ne <= 256,
        ensures
            l == (Launch {
                kernel: Kernel::MoePrefixSum,
                grid: (1, 1, 1),
                block: BLOCK,
                shared: 0,
            }),
            entry_point(l.kernel) == "moe_prefix_sum"@,
    {
        Launch { kernel: Kernel::MoePrefixSum, grid: (1, 1, 1), block: BLOCK, shared: 0 }
    }
}

/// The grouped-query kernel covers the head layout.
pub open spec fn gqa_supported(heads: int, kv_heads: int, head_dim: int) -> bool {
    &&& 0 < head_dim <= 256
    &&& 256int % head_dim == 0
    &&& head_dim % 8 == 0
    &&& heads % kv_heads == 0
    &&& 1 <= heads / kv_heads <= 16
}

proof fn lemma_product3(a: int, b: int, c: int)
    requires
        0 <= a,
        0 <= b,
        0 <= c,
    ensures
        0 <= a * b,
        0 <= a * b * c,
{
    assert(0 <= a * b) by (nonlinear_arith)
        requires
            0 <= a,
            0 <= b,
    ;
    let p = a * b;
    assert(0 <= p * c) by (nonlinear_arith)
        requires
            0 <= p,
            0 <= c,
    ;
}

proof fn lemma_product3_bound(a: int, b: int, c: int)
    requires
        0 <= a <= i32::MAX,
        0 <= b <= i32::MAX,
        0 <= c <= i32::MAX,
    ensures
        0 <= a * b <= u64::MAX,
        0 <= a * b * c <= u128::MAX,
{
    assert(0 <= a * b <= 0x4000_0000_0000_0000) by (nonlinear_arith)
        requires
            0 <= a <= 0x7fff_ffff,
            0 <= b <= 0x7fff_ffff,
    ;
    let p = a * b;
    assert(0 <= p * c <= 0x4000_0000_0000_0000 * 0x8000_0000) by (nonlinear_arith)
        requires
            0 <= p <= 0x4000_0000_0000_0000,
            0 <= c <= 0x7fff_ffff,
    ;
}

/// Operand layout of a column-major matrix product `out = op(a) * op(b)`.
#[derive(Debug, Clone, Copy, PartialEq, Eq, Structural)]
pub struct GemmCall {
    pub transpose_a: bool,
    pub transpose_b: bool,
    pub m: i32,
    pub n: i32,
    pub k: i32,
    /// The weights are operand `a`; else they are operand `b`.
    pub weights_first: bool,
    pub lda: i32,
    pub ldb: i32,
    pub ldc: i32,
}

/// Index of element `(row, col)` of a column-major matrix with leading dimension `ld`.
pub open spec fn column_major(row: int, col: int, ld: int) -> int {
    row + col * ld
}

impl GemmCall {
    /// Where element `(i, p)` of `op(a)` is stored.
    pub open spec fn a_at(self, i: int, p: int) -> int {
        if self.transpose_a {
            column_major(p, i, self.lda as int)
        } else {
            column_major(i, p, self.lda as int)
        }
    }

    /// Where element `(p, j)` of `op(b)` is stored.
    pub open spec fn b_at(self, p: int, j: int) -> int {
        if self.transpose_b {
            column_major(j, p, self.ldb as int)
        } else {
            column_major(p, j, self.ldb as int)
        }
    }

    /// Where element `(i, j)` of the product is stored.
    pub open spec fn out_at(self, i: int, j: int) -> int {
        column_major(i, j, self.ldc as int)
    }
}

impl HipKernels {
    /// `out[1, n] = x[1, k] * w[n, k]^T` for row-major operands: a row-major `[n, k]` weight
    /// matrix is a column-major `k x n` matrix, so nothing is transposed.
    pub fn gemm(&self, n: i32, k: i32) -> (g: GemmCall)
        ensures
            g == (GemmCall {
                transpose_a: false,
                transpose_b: false,
                m: 1,
                n,
                k,
                weights_first: false,
                lda: 1,
                ldb: k,
                ldc: 1,
            }),
            forall|o: int, p: int|
                #![trigger g.b_at(p, o)]
                g.b_at(p, o) == o * k + p && g.a_at(0, p) == p && g.out_at(0, o) == o,
    {
        GemmCall {
            transpose_a: false,
            transpose_b: false,
            m: 1,
            n,
            k,
            weights_first: false,
            lda: 1,
            ldb: k,
            ldc: 1,
        }
    }

    /// `out[batch, n] = x[batch, k] * w[n, k]^T` for row-major operands.
    pub fn gemm_batched(&self, batch: i32, n: i32, k: i32) -> (g: GemmCall)
        ensures
            g == (GemmCall {
                transpose_a: true,
                transpose_b: false,
                m: n,
                n: batch,
                k,
                weights_first: true,
                lda: k,
                ldb: k,
                ldc: n,
            }),
            forall|r: int, o: int, p: int|
                #![trigger g.a_at(o, p), g.b_at(p, r)]
                g.a_at(o, p) == o * k + p && g.b_at(p, r) == r * k + p && g.out_at(o, r) == r * n
                    + o,
    {
        GemmCall {
            transpose_a: true,
            transpose_b: false,
            m: n,
            n: batch,
            k,
            weights_first: true,
            lda: k,
            ldb: k,
            ldc: n,
        }
    }

    /// As [`HipKernels::gemm`] in half precision: the input is cast, multiplied, and the result
    /// cast back.
    pub fn gemm_f16(&self, n: i32, k: i32) -> (calls: (Launch, GemmCall, Launch))
        requires
            0 <= n,
            0 <= k,
        ensures
            calls.0 == per_element(Kernel::CastToHalf, k as int),
            calls.1 == (GemmCall {
                transpose_a: false,
                transpose_b: false,
                m: 1,
                n,
                k,
                weights_first: false,
                lda: 1,
                ldb: k,
                ldc: 1,
            }),
            calls.2 == per_element(Kernel::CastFromHalf, n as int),
    {
        (self.launch_cast_f32_f16(k), self.gemm(n, k), self.launch_cast_f16_f32(n))
    }

    /// As [`HipKernels::gemm_batched`] in half precision.
    pub fn gemm_batched_f16(&self, batch: i32, n: i32, k: i32) -> (calls: (
        Launch,
        GemmCall,
        Launch,
    ))
        requires
            0 <= batch,
            0 <= n,
            0 <= k,
            batch * k <= i32::MAX,
            batch * n <= i32::MAX,
        ensures
            calls.0 == per_element(Kernel::CastToHalf, batch * k),
            calls.1 == (GemmCall {
                transpose_a: true,
                transpose_b: false,
                m: n,
                n: batch,
                k,
                weights_first: true,
                lda: k,
                ldb: k,
                ldc: n,
            }),
            calls.2 == per_element(Kernel::CastFromHalf, batch * n),
    {
        proof {
            assert(0 <= batch * k && 0 <= batch * n) by (nonlinear_arith)
                requires
                    0 <= batch,
                    0 <= n,
                    0 <= k,
            ;
        }
        (
            self.launch_cast_f32_f16(batch * k),
            self.gemm_batched(batch, n, k),
            self.launch_cast_f16_f32(batch * n),
        )
    }
}

/// The batched product reads and writes the row-major operands: output `o` of row `r` is stored
/// at `r * n + o`, and is the product of row `r` of the input, at `r * k + p`, with row `o` of
/// the weights, at `o * k + p`.
pub proof fn lemma_gemm_batched_layout(n: i32, k: i32, batch: i32, r: int, o: int, p: int)
    ensures
        ({
            let g = GemmCall {
                transpose_a: true,
                transpose_b: false,
                m: n,
                n: batch,
                k,
                weights_first: true,
                lda: k,
                ldb: k,
                ldc: n,
            };
            &&& g.out_at(o, r) == r * n + o
            &&& g.a_at(o, p) == o * k + p
            &&& g.b_at(p, r) == r * k + p
        }),
{
}

/// The product of one row reads and writes the same layout.
pub proof fn lemma_gemm_layout(n: i32, k: i32, o: int, p: int)
    ensures
        ({
            let g = GemmCall {
                transpose_a: false,
                transpose_b: false,
                m: 1,
                n,
                k,
                weights_first: false,
                lda: 1,
                ldb: k,
                ldc: 1,
            };
            &&& g.out_at(0, o) == o
            &&& g.a_at(0, p) == p
            &&& g.b_at(p, o) == o * k + p
        }),
{
}

/// A launch over elements has a thread for each of them, and no block without work.
pub proof fn lemma_covers(kernel: Kernel, total: int)
    requires
        0 <= total <= u32::MAX,
    ensures
        ({
            let l = per_element(kernel, total);
            &&& total <= l.grid.0 * l.block < total + 256
        }),
{
}

} // verus!
