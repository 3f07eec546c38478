//! Batched decode: host-side state of a model that runs several sequences per step.
//!
//! The model stages inputs, tracks lengths and block tables, decides how a step runs and what
//! it issues. Allocating, copying and launching are the caller's part.

use vstd::prelude::*;

use crate::buffers::Allocation;
use crate::buffers::Move;
use crate::buffers::Sizes;
use crate::buffers::Slice;
use crate::config::Config;
use crate::config::ModelDType;
use crate::device::Buf;
use crate::device::Op;
use crate::device::Run;
use crate::forward::LayerDev;
use crate::forward::Step;
use crate::upload::ModelLens;
use crate::upload::Storage;
use crate::upload::Upload;
use crate::upload::UploadMode;

verus! {

/// Longest context of a paged model: its scores and the reduction scratch fill 64 KiB of
/// shared memory.
pub const MAX_PAGED_SEQ: usize = 16_128;

/// Why a model refuses a request.
#[allow(inconsistent_fields)]
#[derive(Debug, Clone, Copy, PartialEq, Eq, Structural)]
pub enum BatchedError {
    /// The page size is zero or does not divide the context.
    PageSize { tokens_per_page: usize, max_seq_len: usize },
    /// The attention scores of the context exceed the shared memory.
    AttentionMemory { max_seq_len: usize },
    /// Low-rank attention is paged in single precision only.
    PagedMlaHalf,
    /// Linear-attention state lives outside the pages.
    PagedLinearAttention,
    NotPaged,
    SlotOutOfRange { slot: usize, batch: usize },
    TableLength { len: usize, max_pages: usize },
    PageOutOfRange { page: u32, pool_pages: usize },
    /// Packed storage computes in half precision.
    NeedsHalf,
    /// Packed dense tensors are not wired for low-rank attention.
    DenseQ4Mla,
    /// A width or a buffer exceeds what the device or the machine can address.
    TooLarge,
    SequenceFull { seq: usize },
    PositionOutOfRange { pos: u32, max_seq_len: usize },
    RowSlotOutOfRange { slot: u32, batch: usize },
    /// Linear attention applies one update per slot and step.
    DuplicateSlot { slot: u32 },
    AnchorLength { token_idx: usize, tokens: usize },
    AnchorLinearAttention,
    AnchorLayers { got: usize, want: usize },
    AnchorTooLong { prefix: usize, max_seq_len: usize },
    AnchorKvSize { layer: usize },
    RowCount { rows: usize, capacity: usize },
    NoHostWeights,
}

/// The state of a [`BatchedModel`].
pub struct ModelView {
    pub cfg: Config,
    pub batch: usize,
    pub rows: usize,
    pub mode: UploadMode,
    pub layers: Seq<LayerDev>,
    pub rotary_dim: usize,
    /// Staged inputs, one entry per row.
    pub tokens: Seq<i32>,
    pub pos: Seq<i32>,
    pub slots: Seq<i32>,
    pub run_mask: Seq<i32>,
    /// Length of each sequence.
    pub lens: Seq<u32>,
    /// Row that each slot last occupied.
    pub last_row: Seq<usize>,
    pub expert_slots: usize,
    pub prefetch: bool,
    pub host_weights: bool,
    pub profile: bool,
    pub layer_dump: bool,
    pub paged: bool,
    pub tokens_per_page: usize,
    pub max_pages: usize,
    /// Physical page of each logical page, slot by slot.
    pub tables: Seq<i32>,
    /// Table offset of each row.
    pub offsets: Seq<i32>,
    /// The device offsets may differ from the identity.
    pub offsets_dirty: bool,
    pub graph_enabled: bool,
    /// Row counts with a captured graph.
    pub decode_graphs: Seq<usize>,
    pub greedy_graph: bool,
}

/// Why a configuration cannot be paged, if it cannot.
pub open spec fn paged_error(cfg: Config, tokens_per_page: usize) -> Option<BatchedError> {
    if tokens_per_page == 0 || cfg.max_seq_len % tokens_per_page != 0 {
        Some(BatchedError::PageSize { tokens_per_page, max_seq_len: cfg.max_seq_len })
    } else if (cfg.max_seq_len + 256) * 4 > 64 * 1024 {
        Some(BatchedError::AttentionMemory { max_seq_len: cfg.max_seq_len })
    } else if cfg.kv_lora_rank > 0 && cfg.dtype != ModelDType::F32 {
        Some(BatchedError::PagedMlaHalf)
    } else if cfg.full_attention_interval > 0 && cfg.gdn_v_heads > 0 {
        Some(BatchedError::PagedLinearAttention)
    } else {
        None
    }
}

/// The first element of `xs` from `i` on that is not below `limit`.
pub open spec fn first_at_least(xs: Seq<u32>, limit: int, i: nat) -> Option<u32>
    decreases xs.len() - i,
{
    if i >= xs.len() {
        None
    } else if xs[i as int] >= limit {
        Some(xs[i as int])
    } else {
        first_at_least(xs, limit, i + 1)
    }
}

/// The first element of `xs` from `i` on that occurred before.
pub open spec fn first_repeat(xs: Seq<u32>, i: nat) -> Option<u32>
    decreases xs.len() - i,
{
    if i >= xs.len() {
        None
    } else if xs.take(i as int).contains(xs[i as int]) {
        Some(xs[i as int])
    } else {
        first_repeat(xs, i + 1)
    }
}

/// `base` with its first entries replaced by `front`.
pub open spec fn overlay<A>(base: Seq<A>, front: Seq<A>) -> Seq<A> {
    front + base.skip(front.len() as int)
}

pub open spec fn as_i32(xs: Seq<u32>) -> Seq<i32> {
    xs.map_values(|x: u32| x as i32)
}

/// `last_row` after the rows `slots` were packed: each slot remembers its last row.
pub open spec fn packed_rows(last_row: Seq<usize>, slots: Seq<u32>, n: nat) -> Seq<usize>
    decreases n,
{
    if n == 0 {
        last_row
    } else {
        packed_rows(last_row, slots, (n - 1) as nat).update(slots[n - 1] as int, (n - 1) as usize)
    }
}

impl ModelView {
    pub open spec fn sizes(self) -> Sizes {
        Sizes { cfg: self.cfg, slots: self.batch, rows: self.rows }
    }

    pub open spec fn gdn(self) -> bool {
        self.cfg.full_attention_interval > 0 && self.cfg.gdn_v_heads > 0
    }

    pub open spec fn pool_pages(self) -> int {
        self.batch * self.max_pages
    }

    /// What a step of `n` rows depends on.
    pub open spec fn step(self, n: int, decode_only: bool) -> Step {
        Step {
            cfg: self.cfg,
            rows: n as i32,
            decode_only,
            paged: self.paged,
            tokens_per_page: self.tokens_per_page,
            max_pages_per_seq: self.max_pages,
            rotary_dim: self.rotary_dim,
            moe_grouped: self.cfg.moe_grouped,
            expert_slots: self.expert_slots,
            prefetch: self.prefetch,
            profile: self.profile,
            layer_dump: self.layer_dump,
            q4_experts: self.mode.packed_experts() && self.layers.len() > 0,
            q4_dense: self.mode.packed_dense(),
        }
    }

    /// Every table entry names a page of the pool.
    pub open spec fn tables_wf(self) -> bool {
        &&& 0 < self.tokens_per_page <= i32::MAX
        &&& self.max_pages * self.tokens_per_page == self.cfg.max_seq_len
        &&& self.pool_pages() <= i32::MAX
        &&& self.rows * self.max_pages <= i32::MAX
        &&& self.tables.len() == self.pool_pages()
        &&& self.offsets.len() == self.rows
        &&& forall|i: int|
            0 <= i < self.tables.len() ==> 0 <= #[trigger] self.tables[i] < self.pool_pages()
    }

    pub open spec fn wf(self) -> bool {
        &&& 1 <= self.batch <= self.rows <= i32::MAX
        &&& self.sizes().wf()
        &&& self.sizes().allocatable()
        &&& self.rotary_dim <= i32::MAX
        &&& self.tokens.len() == self.rows
        &&& self.pos.len() == self.rows
        &&& self.slots.len() == self.rows
        &&& self.run_mask.len() == self.rows
        &&& self.lens.len() == self.batch
        &&& self.last_row.len() == self.batch
        &&& forall|i: int|
            0 <= i < self.batch ==> (#[trigger] self.last_row[i]) < self.rows
        &&& forall|i: int|
            0 <= i < self.batch ==> (#[trigger] self.lens[i]) <= self.cfg.max_seq_len
        &&& self.paged ==> self.tables_wf()
        &&& !self.paged ==> self.max_pages == 0 && self.tokens_per_page == 0
        &&& self.decode_graphs.no_duplicates()
    }

    /// Fresh state: nothing staged, all sequences empty.
    pub open spec fn fresh(
        cfg: Config,
        mode: UploadMode,
        layers: Seq<LayerDev>,
        rotary_dim: usize,
        batch: usize,
        rows: usize,
        expert_slots: usize,
    ) -> ModelView {
        ModelView {
            cfg,
            batch,
            rows,
            mode,
            layers,
            rotary_dim,
            tokens: Seq::new(rows as nat, |i: int| 0i32),
            pos: Seq::new(rows as nat, |i: int| 0i32),
            slots: Seq::new(rows as nat, |i: int| 0i32),
            run_mask: Seq::new(rows as nat, |i: int| 0i32),
            lens: Seq::new(batch as nat, |i: int| 0u32),
            last_row: Seq::new(batch as nat, |i: int| 0usize),
            expert_slots,
            prefetch: false,
            host_weights: false,
            profile: cfg.step_profile,
            layer_dump: false,
            paged: false,
            tokens_per_page: 0,
            max_pages: 0,
            tables: Seq::empty(),
            offsets: Seq::empty(),
            offsets_dirty: false,
            graph_enabled: false,
            decode_graphs: Seq::empty(),
            greedy_graph: false,
        }
    }

    /// The state after paging was switched on: logical page `l` of slot `s` is physical page
    /// `s * max_pages + l`, and row `r` looks at slot `r`.
    pub open spec fn with_pages(self, tokens_per_page: usize) -> ModelView {
        let max_pages = self.cfg.max_seq_len / tokens_per_page;
        ModelView {
            paged: true,
            tokens_per_page,
            max_pages,
            tables: Seq::new((self.batch * max_pages) as nat, |i: int| i as i32),
            offsets: Seq::new(self.rows as nat, |r: int| (r * max_pages) as i32),
            ..self
        }
    }

    /// The row offsets staged for `slots`.
    pub open spec fn staged_offsets(self, slots: Seq<u32>) -> Seq<i32> {
        if self.paged {
            overlay(self.offsets, slots.map_values(|s: u32| (s * self.max_pages) as i32))
        } else {
            self.offsets
        }
    }
}

/// The device and the machine can address a model of this size.
pub open spec fn addressable(cfg: Config, slots: usize, rows: usize) -> bool {
    let sizes = Sizes { cfg, slots, rows };
    rows <= i32::MAX && cfg.fits(rows as int) && sizes.allocatable()
}

/// Pages of this size can be addressed as well.
pub open spec fn pages_addressable(
    cfg: Config,
    rows: usize,
    tokens_per_page: usize,
) -> bool {
    rows * (cfg.max_seq_len / tokens_per_page) <= i32::MAX && tokens_per_page <= i32::MAX
}

/// What dispatch needs to know of the layers.
pub open spec fn layer_devs(mode: UploadMode, w: ModelLens) -> Seq<LayerDev> {
    w.layers@.map_values(|l: crate::upload::LayerLens| crate::upload::layer_dev(mode, l))
}

/// Rotary coordinates per head, from the truncated product of head width and rotary fraction.
pub open spec fn rotary_dim_of(cfg: Config, product: usize) -> usize {
    if crate::config::at_least_one(cfg.rope_rotary_pct) {
        cfg.head_dim
    } else {
        vstd::math::min(
            vstd::math::max(crate::config::even_part(product as nat) as int, 2),
            cfg.head_dim as int,
        ) as usize
    }
}

/// Host-side state of a multi-sequence transformer.
pub struct BatchedModel {
    cfg: Config,
    batch: usize,
    rows: usize,
    mode: UploadMode,
    layers: Vec<LayerDev>,
    rotary_dim: usize,
    tokens_host: Vec<i32>,
    pos_host: Vec<i32>,
    slots_host: Vec<i32>,
    run_mask_host: Vec<i32>,
    lens: Vec<u32>,
    last_row_by_slot: Vec<usize>,
    expert_slots: usize,
    prefetch: bool,
    host_weights: bool,
    profile: bool,
    layer_dump: bool,
    paged: bool,
    tokens_per_page: usize,
    max_pages_per_seq: usize,
    tables_host: Vec<i32>,
    offsets_host: Vec<i32>,
    offsets_dirty: bool,
    graph_enabled: bool,
    decode_graphs: Vec<usize>,
    greedy_graph: bool,
}

impl View for BatchedModel {
    type V = ModelView;

    closed spec fn view(&self) -> ModelView {
        ModelView {
            cfg: self.cfg,
            batch: self.batch,
            rows: self.rows,
            mode: self.mode,
            layers: self.layers@,
            rotary_dim: self.rotary_dim,
            tokens: self.tokens_host@,
            pos: self.pos_host@,
            slots: self.slots_host@,
            run_mask: self.run_mask_host@,
            lens: self.lens@,
            last_row: self.last_row_by_slot@,
            expert_slots: self.expert_slots,
            prefetch: self.prefetch,
            host_weights: self.host_weights,
            profile: self.profile,
            layer_dump: self.layer_dump,
            paged: self.paged,
            tokens_per_page: self.tokens_per_page,
            max_pages: self.max_pages_per_seq,
            tables: self.tables_host@,
            offsets: self.offsets_host@,
            offsets_dirty: self.offsets_dirty,
            graph_enabled: self.graph_enabled,
            decode_graphs: self.decode_graphs@,
            greedy_graph: self.greedy_graph,
        }
    }
}

/// The state of a fresh model.
pub open spec fn fresh_model(
    cfg: Config,
    w: ModelLens,
    storage: Storage,
    slots: usize,
    rows: usize,
    expert_slots: usize,
    product: usize,
) -> ModelView {
    let mode = UploadMode {
        storage,
        half: cfg.dtype == ModelDType::F16,
        resident: expert_slots >= cfg.num_experts,
    };
    ModelView::fresh(
        cfg,
        mode,
        layer_devs(mode, w),
        rotary_dim_of(cfg, product),
        slots,
        rows,
        expert_slots,
    )
}

/// Parameters that every build accepts: at least one slot, a row for every slot, and a conv
/// kernel where linear attention needs one.
pub open spec fn build_args(cfg: Config, w: ModelLens, slots: usize, rows: usize) -> bool {
    &&& 1 <= slots <= rows
    &&& w.fits()
    &&& cfg.full_attention_interval > 0 && cfg.gdn_v_heads > 0 ==> cfg.gdn_conv_kernel > 0
}

impl BatchedModel {
    /// The invariant of the state.
    pub open spec fn wf(&self) -> bool {
        self@.wf()
    }

    /// Whether the device and the machine can address a model of this size.
    fn check_addressable(cfg: &Config, slots: usize, rows: usize) -> (b: bool)
        requires
            cfg.full_attention_interval > 0 && cfg.gdn_v_heads > 0 ==> cfg.gdn_conv_kernel > 0,
        ensures
            b == addressable(*cfg, slots, rows),
    {
        if rows > i32::MAX as usize {
            return false;
        }
        let step = Step {
            cfg: *cfg,
            rows: rows as i32,
            decode_only: true,
            paged: false,
            tokens_per_page: 0,
            max_pages_per_seq: 0,
            rotary_dim: 0,
            moe_grouped: false,
            expert_slots: 0,
            prefetch: false,
            profile: false,
            layer_dump: false,
            q4_experts: false,
            q4_dense: false,
        };
        if !step.check_fits() {
            return false;
        }
        let sizes = Sizes { cfg: *cfg, slots, rows };
        sizes.alloc_buffers().is_some()
    }

    fn build_common(
        cfg: Config,
        w: &ModelLens,
        storage: Storage,
        slots: usize,
        rows: usize,
        expert_slots: usize,
        product: usize,
    ) -> (r: Result<Self, BatchedError>)
        requires
            build_args(cfg, *w, slots, rows),
        ensures
            match r {
                Ok(m) => addressable(cfg, slots, rows)
                    && m.wf()
                    && m@ == fresh_model(cfg, *w, storage, slots, rows, expert_slots, product),
                Err(e) => !addressable(cfg, slots, rows) && e == BatchedError::TooLarge,
            },
    {
        if !BatchedModel::check_addressable(&cfg, slots, rows) {
            return Err(BatchedError::TooLarge);
        }
        let mode = UploadMode {
            storage,
            half: cfg.dtype == ModelDType::F16,
            resident: expert_slots >= cfg.num_experts,
        };
        let mut layers: Vec<LayerDev> = Vec::new();
        let mut li: usize = 0;
        while li < w.layers.len()
            invariant
                li <= w.layers.len(),
                layers@ == layer_devs(mode, *w).take(li as int),
            decreases w.layers.len() - li,
        {
            layers.push(mode.describe_layer(&w.layers[li]));
            li = li + 1;
            assert(layers@ =~= layer_devs(mode, *w).take(li as int));
        }
        assert(layer_devs(mode, *w).take(li as int) =~= layer_devs(mode, *w));
        let m = BatchedModel {
            cfg,
            batch: slots,
            rows,
            mode,
            layers,
            rotary_dim: cfg.attn_rotary_dim(product),
            tokens_host: vec![0; rows],
            pos_host: vec![0; rows],
            slots_host: vec![0; rows],
            run_mask_host: vec![0; rows],
            lens: vec![0; slots],
            last_row_by_slot: vec![0; slots],
            expert_slots,
            prefetch: false,
            host_weights: false,
            profile: cfg.step_profile,
            layer_dump: false,
            paged: false,
            tokens_per_page: 0,
            max_pages_per_seq: 0,
            tables_host: Vec::new(),
            offsets_host: Vec::new(),
            offsets_dirty: false,
            graph_enabled: false,
            decode_graphs: Vec::new(),
            greedy_graph: false,
        };
        proof {
            let v = ModelView::fresh(
                cfg,
                mode,
                layer_devs(mode, *w),
                rotary_dim_of(cfg, product),
                slots,
                rows,
                expert_slots,
            );
            assert(m@.tokens =~= v.tokens);
            assert(m@.pos =~= v.pos);
            assert(m@.slots =~= v.slots);
            assert(m@.run_mask =~= v.run_mask);
            assert(m@.lens =~= v.lens);
            assert(m@.last_row =~= v.last_row);
            assert(m@.tables =~= v.tables);
            assert(m@.offsets =~= v.offsets);
            assert(m@.decode_graphs =~= v.decode_graphs);
        }
        Ok(m)
    }

    /// Checks shared by every paged build: page geometry, attention memory, and the kinds of
    /// attention that the paged kernels cover.
    fn paged_guards(cfg: &Config, tokens_per_page: usize) -> (r: Result<(), BatchedError>)
        ensures
            match r {
                Ok(_) => paged_error(*cfg, tokens_per_page) is None,
                Err(e) => paged_error(*cfg, tokens_per_page) == Some(e),
            },
    {
        if tokens_per_page == 0 || cfg.max_seq_len % tokens_per_page != 0 {
            return Err(BatchedError::PageSize { tokens_per_page, max_seq_len: cfg.max_seq_len });
        }
        if cfg.max_seq_len > MAX_PAGED_SEQ {
            return Err(BatchedError::AttentionMemory { max_seq_len: cfg.max_seq_len });
        }
        if cfg.kv_lora_rank > 0 && cfg.dtype != ModelDType::F32 {
            return Err(BatchedError::PagedMlaHalf);
        }
        if cfg.gdn_enabled() {
            return Err(BatchedError::PagedLinearAttention);
        }
        Ok(())
    }

    /// Whether a configuration can be paged, before any weight is loaded.
    pub fn check_paged_support(cfg: &Config, tokens_per_page: usize) -> (r: Result<
        (),
        BatchedError,
    >)
        ensures
            match r {
                Ok(_) => paged_error(*cfg, tokens_per_page) is None,
                Err(e) => paged_error(*cfg, tokens_per_page) == Some(e),
            },
    {
        BatchedModel::paged_guards(cfg, tokens_per_page)
    }

    /// Switches paging on with the identity mapping.
    fn init_paged(&mut self, tokens_per_page: usize) -> (ok: bool)
        requires
            old(self).wf(),
            !old(self)@.paged,
            paged_error(old(self)@.cfg, tokens_per_page) is None,
        ensures
            final(self).wf(),
            ok == pages_addressable(old(self)@.cfg, old(self)@.rows, tokens_per_page),
            ok ==> final(self)@ == old(self)@.with_pages(tokens_per_page),
    {
        if tokens_per_page > i32::MAX as usize {
            return false;
        }
        let max_pages: usize = self.cfg.max_seq_len / tokens_per_page;
        let ghost v = self@;
        match self.rows.checked_mul(max_pages) {
            Some(p) => {
                if p > i32::MAX as usize {
                    return false;
                }
            },
            None => {
                return false;
            },
        }
        proof {
            assert(v.batch * max_pages <= v.rows * max_pages) by (nonlinear_arith)
                requires
                    v.batch <= v.rows,
            ;
            assert(max_pages * tokens_per_page == v.cfg.max_seq_len) by {
                vstd::arithmetic::div_mod::lemma_fundamental_div_mod(
                    v.cfg.max_seq_len as int,
                    tokens_per_page as int,
                );
                assert(tokens_per_page * max_pages == max_pages * tokens_per_page)
                    by (nonlinear_arith);
            }
        }
        let pool: usize = self.batch * max_pages;
        let mut tables: Vec<i32> = Vec::new();
        let mut i: usize = 0;
        while i < pool
            invariant
                i <= pool <= i32::MAX,
                tables@ == Seq::new(i as nat, |k: int| k as i32),
            decreases pool - i,
        {
            tables.push(i as i32);
            i = i + 1;
            assert(tables@ =~= Seq::new(i as nat, |k: int| k as i32));
        }
        let mut offsets: Vec<i32> = Vec::new();
        let mut r: usize = 0;
        while r < self.rows
            invariant
                r <= self.rows,
                self.rows * max_pages <= i32::MAX,
                offsets@ == Seq::new(r as nat, |k: int| (k * max_pages) as i32),
            decreases self.rows - r,
        {
            proof {
                assert(0 <= r * max_pages <= self.rows * max_pages) by (nonlinear_arith)
                    requires
                        r <= self.rows,
                ;
            }
            offsets.push((r * max_pages) as i32);
            r = r + 1;
            assert(offsets@ =~= Seq::new(r as nat, |k: int| (k * max_pages) as i32));
        }
        self.paged = true;
        self.tokens_per_page = tokens_per_page;
        self.max_pages_per_seq = max_pages;
        self.tables_host = tables;
        self.offsets_host = offsets;
        proof {
            let w = v.with_pages(tokens_per_page);
            assert(self@.tables =~= w.tables);
            assert(self@.offsets =~= w.offsets);
            assert(self@ == w);
        }
        true
    }
}

/// Packed storage needs a half-precision model.
pub open spec fn needs_half(cfg: Config) -> Option<BatchedError> {
    if cfg.dtype != ModelDType::F16 {
        Some(BatchedError::NeedsHalf)
    } else {
        None
    }
}

/// Packed dense tensors also need standard attention.
pub open spec fn needs_half_dense(cfg: Config) -> Option<BatchedError> {
    if cfg.dtype != ModelDType::F16 {
        Some(BatchedError::NeedsHalf)
    } else if cfg.kv_lora_rank > 0 {
        Some(BatchedError::DenseQ4Mla)
    } else {
        None
    }
}

/// Why a build fails, if it does: first `pre`, then the size.
pub open spec fn refusal(
    pre: Option<BatchedError>,
    cfg: Config,
    slots: usize,
    rows: usize,
) -> Option<BatchedError> {
    if pre is Some {
        pre
    } else if !addressable(cfg, slots, rows) {
        Some(BatchedError::TooLarge)
    } else {
        None
    }
}

/// Why a paged build fails, if it does: first paging itself, then `pre`, then the size.
pub open spec fn paged_refusal(
    pre: Option<BatchedError>,
    cfg: Config,
    slots: usize,
    rows: usize,
    tokens_per_page: usize,
) -> Option<BatchedError> {
    if paged_error(cfg, tokens_per_page) is Some {
        paged_error(cfg, tokens_per_page)
    } else if pre is Some {
        pre
    } else if !addressable(cfg, slots, rows) || !pages_addressable(cfg, rows, tokens_per_page) {
        Some(BatchedError::TooLarge)
    } else {
        None
    }
}

impl BatchedModel {
    fn build_paged(
        cfg: Config,
        w: &ModelLens,
        storage: Storage,
        slots: usize,
        rows: usize,
        tokens_per_page: usize,
        product: usize,
    ) -> (r: Result<Self, BatchedError>)
        requires
            build_args(cfg, *w, slots, rows),
            paged_error(cfg, tokens_per_page) is None,
        ensures
            match r {
                Ok(m) => addressable(cfg, slots, rows) && pages_addressable(
                    cfg,
                    rows,
                    tokens_per_page,
                )
                    && m.wf()
                    && m@ == fresh_model(
                        cfg,
                        *w,
                        storage,
                        slots,
                        rows,
                        usize::MAX,
                        product,
                    ).with_pages(tokens_per_page),
                Err(e) => e == BatchedError::TooLarge && !(addressable(cfg, slots, rows)
                    && pages_addressable(cfg, rows, tokens_per_page)),
            },
    {
        let mut m = BatchedModel::build_common(
            cfg,
            w,
            storage,
            slots,
            rows,
            usize::MAX,
            product,
        )?;
        if m.init_paged(tokens_per_page) {
            Ok(m)
        } else {
            Err(BatchedError::TooLarge)
        }
    }

    /// A model with `slots` KV slots and `rows` row capacity.
    pub fn with_rows(
        cfg: Config,
        w: &ModelLens,
        slots: usize,
        rows: usize,
        rotary_product: usize,
    ) -> (r: Result<Self, BatchedError>)
        requires
            build_args(cfg, *w, slots, rows),
        ensures
            match r {
                Ok(m) => refusal(None, cfg, slots, rows) is None
                    && m.wf()
                    && m@ == fresh_model(
                        cfg,
                        *w,
                        Storage::Full,
                        slots,
                        rows,
                        usize::MAX,
                        rotary_product,
                    ),
                Err(e) => refusal(None, cfg, slots, rows) == Some(e),
            },
    {
        BatchedModel::build_common(cfg, w, Storage::Full, slots, rows, usize::MAX, rotary_product)
    }

    /// A model for `batch` sequences.
    pub fn new(
        cfg: Config,
        w: &ModelLens,
        batch: usize,
        rotary_product: usize,
    ) -> (r: Result<Self, BatchedError>)
        requires
            build_args(cfg, *w, batch, batch),
        ensures
            match r {
                Ok(m) => refusal(None, cfg, batch, batch) is None
                    && m.wf()
                    && m@ == fresh_model(
                        cfg,
                        *w,
                        Storage::Full,
                        batch,
                        batch,
                        usize::MAX,
                        rotary_product,
                    ),
                Err(e) => refusal(None, cfg, batch, batch) == Some(e),
            },
    {
        BatchedModel::with_rows(cfg, w, batch, batch, rotary_product)
    }

    /// A model from packed int4 weights, expanded to half precision on upload.
    pub fn with_rows_q4(
        cfg: Config,
        w: &ModelLens,
        slots: usize,
        rows: usize,
        rotary_product: usize,
    ) -> (r: Result<Self, BatchedError>)
        requires
            build_args(cfg, *w, slots, rows),
        ensures
            match r {
                Ok(m) => refusal(needs_half(cfg), cfg, slots, rows) is None
                    && m.wf()
                    && m@ == fresh_model(
                        cfg,
                        *w,
                        Storage::Q4 { experts_on_device: false, dense_on_device: false },
                        slots,
                        rows,
                        usize::MAX,
                        rotary_product,
                    ),
                Err(e) => refusal(needs_half(cfg), cfg, slots, rows) == Some(e),
            },
    {
        if cfg.dtype != ModelDType::F16 {
            return Err(BatchedError::NeedsHalf);
        }
        BatchedModel::build_common(
            cfg,
            w,
            Storage::Q4 { experts_on_device: false, dense_on_device: false },
            slots,
            rows,
            usize::MAX,
            rotary_product,
        )
    }

    /// A model for `batch` sequences from packed int4 weights.
    pub fn from_q4(
        cfg: Config,
        w: &ModelLens,
        batch: usize,
        rotary_product: usize,
    ) -> (r: Result<Self, BatchedError>)
        requires
            build_args(cfg, *w, batch, batch),
        ensures
            match r {
                Ok(m) => refusal(needs_half(cfg), cfg, batch, batch) is None
                    && m.wf()
                    && m@ == fresh_model(
                        cfg,
                        *w,
                        Storage::Q4 { experts_on_device: false, dense_on_device: false },
                        batch,
                        batch,
                        usize::MAX,
                        rotary_product,
                    ),
                Err(e) => refusal(needs_half(cfg), cfg, batch, batch) == Some(e),
            },
    {
        BatchedModel::with_rows_q4(cfg, w, batch, batch, rotary_product)
    }

    /// A model whose expert pool stays packed on the device.
    pub fn with_rows_q4_device(
        cfg: Config,
        w: &ModelLens,
        slots: usize,
        rows: usize,
        rotary_product: usize,
    ) -> (r: Result<Self, BatchedError>)
        requires
            build_args(cfg, *w, slots, rows),
        ensures
            match r {
                Ok(m) => refusal(needs_half(cfg), cfg, slots, rows) is None
                    && m.wf()
                    && m@ == fresh_model(
                        cfg,
                        *w,
                        Storage::Q4 { experts_on_device: true, dense_on_device: false },
                        slots,
                        rows,
                        usize::MAX,
                        rotary_product,
                    ),
                Err(e) => refusal(needs_half(cfg), cfg, slots, rows) == Some(e),
            },
    {
        if cfg.dtype != ModelDType::F16 {
            return Err(BatchedError::NeedsHalf);
        }
        BatchedModel::build_common(
            cfg,
            w,
            Storage::Q4 { experts_on_device: true, dense_on_device: false },
            slots,
            rows,
            usize::MAX,
            rotary_product,
        )
    }

    /// A model whose experts and large dense tensors all stay packed on the device.
    pub fn with_rows_q4_all(
        cfg: Config,
        w: &ModelLens,
        slots: usize,
        rows: usize,
        rotary_product: usize,
    ) -> (r: Result<Self, BatchedError>)
        requires
            build_args(cfg, *w, slots, rows),
        ensures
            match r {
                Ok(m) => refusal(needs_half_dense(cfg), cfg, slots, rows) is None
                    && m.wf()
                    && m@ == fresh_model(
                        cfg,
                        *w,
                        Storage::Q4 { experts_on_device: true, dense_on_device: true },
                        slots,
                        rows,
                        usize::MAX,
                        rotary_product,
                    ),
                Err(e) => refusal(needs_half_dense(cfg), cfg, slots, rows) == Some(e),
            },
    {
        if cfg.dtype != ModelDType::F16 {
            return Err(BatchedError::NeedsHalf);
        }
        if cfg.kv_lora_rank > 0 {
            return Err(BatchedError::DenseQ4Mla);
        }
        BatchedModel::build_common(
            cfg,
            w,
            Storage::Q4 { experts_on_device: true, dense_on_device: true },
            slots,
            rows,
            usize::MAX,
            rotary_product,
        )
    }

    /// A model from E4M3 weights, expanded to half precision on upload.
    pub fn with_rows_fp8(
        cfg: Config,
        w: &ModelLens,
        slots: usize,
        rows: usize,
        rotary_product: usize,
    ) -> (r: Result<Self, BatchedError>)
        requires
            build_args(cfg, *w, slots, rows),
        ensures
            match r {
                Ok(m) => refusal(needs_half(cfg), cfg, slots, rows) is None
                    && m.wf()
                    && m@ == fresh_model(
                        cfg,
                        *w,
                        Storage::Fp8,
                        slots,
                        rows,
                        usize::MAX,
                        rotary_product,
                    ),
                Err(e) => refusal(needs_half(cfg), cfg, slots, rows) == Some(e),
            },
    {
        if cfg.dtype != ModelDType::F16 {
            return Err(BatchedError::NeedsHalf);
        }
        BatchedModel::build_common(cfg, w, Storage::Fp8, slots, rows, usize::MAX, rotary_product)
    }

    /// A model for `batch` sequences from E4M3 weights.
    pub fn from_fp8(
        cfg: Config,
        w: &ModelLens,
        batch: usize,
        rotary_product: usize,
    ) -> (r: Result<Self, BatchedError>)
        requires
            build_args(cfg, *w, batch, batch),
        ensures
            match r {
                Ok(m) => refusal(needs_half(cfg), cfg, batch, batch) is None
                    && m.wf()
                    && m@ == fresh_model(
                        cfg,
                        *w,
                        Storage::Fp8,
                        batch,
                        batch,
                        usize::MAX,
                        rotary_product,
                    ),
                Err(e) => refusal(needs_half(cfg), cfg, batch, batch) == Some(e),
            },
    {
        BatchedModel::with_rows_fp8(cfg, w, batch, batch, rotary_product)
    }

    /// A paged model with an independent row capacity.
    pub fn with_paged_kv_rows(
        cfg: Config,
        w: &ModelLens,
        slots: usize,
        rows: usize,
        tokens_per_page: usize,
        rotary_product: usize,
    ) -> (r: Result<Self, BatchedError>)
        requires
            build_args(cfg, *w, slots, rows),
        ensures
            match r {
                Ok(m) => paged_refusal(None, cfg, slots, rows, tokens_per_page) is None
                    && m.wf()
                        && m@ == fresh_model(
                            cfg,
                            *w,
                            Storage::Full,
                            slots,
                            rows,
                            usize::MAX,
                            rotary_product,
                        ).with_pages(tokens_per_page),
                Err(e) => paged_refusal(None, cfg, slots, rows, tokens_per_page) == Some(e),
            },
    {
        BatchedModel::paged_guards(&cfg, tokens_per_page)?;
        BatchedModel::build_paged(
            cfg,
            w,
            Storage::Full,
            slots,
            rows,
            tokens_per_page,
            rotary_product,
        )
    }

    /// A paged model: the KV caches are a page pool addressed through per-slot block tables.
    pub fn with_paged_kv(
        cfg: Config,
        w: &ModelLens,
        slots: usize,
        tokens_per_page: usize,
        rotary_product: usize,
    ) -> (r: Result<Self, BatchedError>)
        requires
            build_args(cfg, *w, slots, slots),
        ensures
            match r {
                Ok(m) => paged_refusal(None, cfg, slots, slots, tokens_per_page) is None
                    && m.wf()
                        && m@ == fresh_model(
                            cfg,
                            *w,
                            Storage::Full,
                            slots,
                            slots,
                            usize::MAX,
                            rotary_product,
                        ).with_pages(tokens_per_page),
                Err(e) => paged_refusal(None, cfg, slots, slots, tokens_per_page) == Some(e),
            },
    {
        BatchedModel::with_paged_kv_rows(cfg, w, slots, slots, tokens_per_page, rotary_product)
    }

    /// A paged model from packed int4 weights.
    pub fn with_paged_kv_rows_q4(
        cfg: Config,
        w: &ModelLens,
        slots: usize,
        rows: usize,
        tokens_per_page: usize,
        rotary_product: usize,
    ) -> (r: Result<Self, BatchedError>)
        requires
            build_args(cfg, *w, slots, rows),
        ensures
            match r {
                Ok(m) => paged_refusal(needs_half(cfg), cfg, slots, rows, tokens_per_page) is None
                    && m.wf()
                        && m@ == fresh_model(
                            cfg,
                            *w,
                            Storage::Q4 { experts_on_device: false, dense_on_device: false },
                            slots,
                            rows,
                            usize::MAX,
                            rotary_product,
                        ).with_pages(tokens_per_page),
                Err(e) => paged_refusal(
                    needs_half(cfg),
                    cfg,
                    slots,
                    rows,
                    tokens_per_page,
                ) == Some(e),
            },
    {
        BatchedModel::paged_guards(&cfg, tokens_per_page)?;
        if cfg.dtype != ModelDType::F16 {
            return Err(BatchedError::NeedsHalf);
        }
        BatchedModel::build_paged(
            cfg,
            w,
            Storage::Q4 { experts_on_device: false, dense_on_device: false },
            slots,
            rows,
            tokens_per_page,
            rotary_product,
        )
    }

    /// A paged model whose expert pool stays packed on the device.
    pub fn with_paged_kv_rows_q4_device(
        cfg: Config,
        w: &ModelLens,
        slots: usize,
        rows: usize,
        tokens_per_page: usize,
        rotary_product: usize,
    ) -> (r: Result<Self, BatchedError>)
        requires
            build_args(cfg, *w, slots, rows),
        ensures
            match r {
                Ok(m) => paged_refusal(None, cfg, slots, rows, tokens_per_page) is None
                    && m.wf()
                        && m@ == fresh_model(
                            cfg,
                            *w,
                            Storage::Q4 { experts_on_device: true, dense_on_device: false },
                            slots,
                            rows,
                            usize::MAX,
                            rotary_product,
                        ).with_pages(tokens_per_page),
                Err(e) => paged_refusal(None, cfg, slots, rows, tokens_per_page) == Some(e),
            },
    {
        BatchedModel::paged_guards(&cfg, tokens_per_page)?;
        BatchedModel::build_paged(
            cfg,
            w,
            Storage::Q4 { experts_on_device: true, dense_on_device: false },
            slots,
            rows,
            tokens_per_page,
            rotary_product,
        )
    }

    /// A paged model whose experts and large dense tensors all stay packed on the device.
    pub fn with_paged_kv_rows_q4_all(
        cfg: Config,
        w: &ModelLens,
        slots: usize,
        rows: usize,
        tokens_per_page: usize,
        rotary_product: usize,
    ) -> (r: Result<Self, BatchedError>)
        requires
            build_args(cfg, *w, slots, rows),
        ensures
            match r {
                Ok(m) => paged_refusal(None, cfg, slots, rows, tokens_per_page) is None
                    && m.wf()
                        && m@ == fresh_model(
                            cfg,
                            *w,
                            Storage::Q4 { experts_on_device: true, dense_on_device: true },
                            slots,
                            rows,
                            usize::MAX,
                            rotary_product,
                        ).with_pages(tokens_per_page),
                Err(e) => paged_refusal(None, cfg, slots, rows, tokens_per_page) == Some(e),
            },
    {
        BatchedModel::paged_guards(&cfg, tokens_per_page)?;
        BatchedModel::build_paged(
            cfg,
            w,
            Storage::Q4 { experts_on_device: true, dense_on_device: true },
            slots,
            rows,
            tokens_per_page,
            rotary_product,
        )
    }

    /// A paged model from E4M3 weights.
    pub fn with_paged_kv_rows_fp8(
        cfg: Config,
        w: &ModelLens,
        slots: usize,
        rows: usize,
        tokens_per_page: usize,
        rotary_product: usize,
    ) -> (r: Result<Self, BatchedError>)
        requires
            build_args(cfg, *w, slots, rows),
        ensures
            match r {
                Ok(m) => paged_refusal(needs_half(cfg), cfg, slots, rows, tokens_per_page) is None
                    && m.wf()
                        && m@ == fresh_model(
                            cfg,
                            *w,
                            Storage::Fp8,
                            slots,
                            rows,
                            usize::MAX,
                            rotary_product,
                        ).with_pages(tokens_per_page),
                Err(e) => paged_refusal(
                    needs_half(cfg),
                    cfg,
                    slots,
                    rows,
                    tokens_per_page,
                ) == Some(e),
            },
    {
        BatchedModel::paged_guards(&cfg, tokens_per_page)?;
        if cfg.dtype != ModelDType::F16 {
            return Err(BatchedError::NeedsHalf);
        }
        BatchedModel::build_paged(
            cfg,
            w,
            Storage::Fp8,
            slots,
            rows,
            tokens_per_page,
            rotary_product,
        )
    }

    /// A model whose experts stay in host memory when they outnumber `expert_slots`; the MoE
    /// layers are then computed on the CPU.
    pub fn with_expert_slots(
        cfg: Config,
        w: &ModelLens,
        slots: usize,
        rows: usize,
        expert_slots: usize,
        rotary_product: usize,
    ) -> (r: Result<Self, BatchedError>)
        requires
            build_args(cfg, *w, slots, rows),
        ensures
            match r {
                Ok(m) => refusal(None, cfg, slots, rows) is None
                    && m.wf()
                    && m@ == (
                        ModelView {
                            host_weights: true,
                            ..fresh_model(
                                cfg,
                                *w,
                                Storage::Full,
                                slots,
                                rows,
                                expert_slots,
                                rotary_product,
                            )
                        }
                    ),
                Err(e) => refusal(None, cfg, slots, rows) == Some(e),
            },
    {
        let mut m = BatchedModel::build_common(
            cfg,
            w,
            Storage::Full,
            slots,
            rows,
            expert_slots,
            rotary_product,
        )?;
        let ghost base = m;
        m.host_weights = true;
        proof {
            assert(m@ == (ModelView { host_weights: true, ..base@ }));
        }
        Ok(m)
    }

    /// A model whose expert weights are prefetched from host memory layer by layer.
    pub fn with_prefill_buffer(
        cfg: Config,
        w: &ModelLens,
        slots: usize,
        rows: usize,
        rotary_product: usize,
    ) -> (r: Result<Self, BatchedError>)
        requires
            build_args(cfg, *w, slots, rows),
        ensures
            match r {
                Ok(m) => refusal(None, cfg, slots, rows) is None
                    && m.wf()
                    && m@ == (
                        ModelView {
                            host_weights: true,
                            prefetch: true,
                            ..fresh_model(cfg, *w, Storage::Full, slots, rows, 0, rotary_product)
                        }
                    ),
                Err(e) => refusal(None, cfg, slots, rows) == Some(e),
            },
    {
        let mut m = BatchedModel::build_common(
            cfg,
            w,
            Storage::Full,
            slots,
            rows,
            0,
            rotary_product,
        )?;
        let ghost base = m;
        m.host_weights = true;
        m.prefetch = true;
        proof {
            assert(m@ == (ModelView { host_weights: true, prefetch: true, ..base@ }));
        }
        Ok(m)
    }
}

/// What the caller does for one decode step.
pub struct StepWork {
    /// Active rows, whose staged inputs are uploaded.
    pub rows: usize,
    /// The step runs as a captured graph.
    pub graph: bool,
    /// The graph does not exist yet: record the input uploads, the operations and the sampling.
    pub capture: bool,
    /// The staged row offsets are uploaded before the operations.
    pub upload_offsets: bool,
    /// The operations of the step.
    pub ops: Vec<Op>,
}

/// Slot numbers of a step in which row and slot coincide.
pub open spec fn identity_slots(batch: usize) -> Seq<u32> {
    Seq::new(batch as nat, |i: int| i as u32)
}

impl ModelView {
    /// The state after `tokens` were staged, one per slot.
    pub open spec fn staged_decode(self, tokens: Seq<u32>, stage_offsets: bool) -> ModelView {
        let ids = identity_slots(self.batch);
        ModelView {
            tokens: overlay(self.tokens, as_i32(tokens)),
            pos: overlay(self.pos, as_i32(self.lens)),
            slots: overlay(self.slots, as_i32(ids)),
            run_mask: overlay(self.run_mask, Seq::new(self.batch as nat, |i: int| 0i32)),
            last_row: Seq::new(self.batch as nat, |i: int| i as usize),
            offsets: if stage_offsets {
                self.staged_offsets(ids)
            } else {
                self.offsets
            },
            ..self
        }
    }

    /// The state after explicit rows were staged.
    pub open spec fn staged_rows(
        self,
        tokens: Seq<u32>,
        lens: Seq<u32>,
        slots: Seq<u32>,
    ) -> ModelView {
        ModelView {
            tokens: overlay(self.tokens, as_i32(tokens)),
            pos: overlay(self.pos, as_i32(lens)),
            slots: overlay(self.slots, as_i32(slots)),
            run_mask: overlay(self.run_mask, Seq::new(slots.len(), |i: int| 0i32)),
            last_row: packed_rows(self.last_row, slots, slots.len()),
            offsets: self.staged_offsets(slots),
            offsets_dirty: true,
            ..self
        }
    }

    /// A step of `n` rows runs as a graph.
    pub open spec fn graph_step(self, n: int, decode_only: bool) -> bool {
        self.graph_enabled && n <= i32::MAX && self.step(n, decode_only).capture_ok()
    }

    /// The first sequence that has no room left.
    pub open spec fn first_full(self, i: nat) -> Option<usize>
        decreases self.lens.len() - i,
    {
        if i >= self.lens.len() {
            None
        } else if self.lens[i as int] >= self.cfg.max_seq_len {
            Some(i as usize)
        } else {
            self.first_full(i + 1)
        }
    }

    /// Why explicit rows are refused, if they are.
    pub open spec fn rows_error(self, lens: Seq<u32>, slots: Seq<u32>) -> Option<BatchedError> {
        if first_at_least(lens, self.cfg.max_seq_len as int, 0) is Some {
            Some(
                BatchedError::PositionOutOfRange {
                    pos: first_at_least(lens, self.cfg.max_seq_len as int, 0)->0,
                    max_seq_len: self.cfg.max_seq_len,
                },
            )
        } else if first_at_least(slots, self.batch as int, 0) is Some {
            Some(
                BatchedError::RowSlotOutOfRange {
                    slot: first_at_least(slots, self.batch as int, 0)->0,
                    batch: self.batch,
                },
            )
        } else if self.gdn() && first_repeat(slots, 0) is Some {
            Some(BatchedError::DuplicateSlot { slot: first_repeat(slots, 0)->0 })
        } else {
            None
        }
    }

    /// Why a block table is refused, if it is.
    pub open spec fn table_error(self, slot: usize, pages: Seq<u32>) -> Option<BatchedError> {
        if !self.paged {
            Some(BatchedError::NotPaged)
        } else if slot >= self.batch {
            Some(BatchedError::SlotOutOfRange { slot, batch: self.batch })
        } else if pages.len() == 0 || pages.len() > self.max_pages {
            Some(
                BatchedError::TableLength { len: pages.len() as usize, max_pages: self.max_pages },
            )
        } else if first_at_least(pages, self.pool_pages(), 0) is Some {
            Some(
                BatchedError::PageOutOfRange {
                    page: first_at_least(pages, self.pool_pages(), 0)->0,
                    pool_pages: self.pool_pages() as usize,
                },
            )
        } else {
            None
        }
    }

    /// The tables after slot `slot` got `pages`, its last page repeated to the end.
    pub open spec fn with_table(self, slot: usize, pages: Seq<u32>) -> Seq<i32> {
        let start = slot * self.max_pages;
        Seq::new(
            self.tables.len(),
            |i: int|
                if start <= i < start + pages.len() {
                    pages[i - start] as i32
                } else if start <= i < start + self.max_pages {
                    pages.last() as i32
                } else {
                    self.tables[i]
                },
        )
    }
}

fn find_at_least(xs: &[u32], limit: usize) -> (r: Option<u32>)
    ensures
        r == first_at_least(xs@, limit as int, 0),
        r is None ==> forall|i: int| 0 <= i < xs@.len() ==> (#[trigger] xs@[i]) < limit,
{
    let mut i: usize = 0;
    while i < xs.len()
        invariant
            i <= xs@.len(),
            first_at_least(xs@, limit as int, 0) == first_at_least(xs@, limit as int, i as nat),
            forall|k: int| 0 <= k < i ==> (#[trigger] xs@[k]) < limit,
        decreases xs@.len() - i,
    {
        if xs[i] as usize >= limit {
            return Some(xs[i]);
        }
        i = i + 1;
    }
    None
}

fn find_repeat(xs: &[u32], bound: usize) -> (r: Option<u32>)
    requires
        bound <= u32::MAX,
        forall|i: int| 0 <= i < xs@.len() ==> (#[trigger] xs@[i]) < bound,
    ensures
        r == first_repeat(xs@, 0),
{
    let mut seen: Vec<bool> = vec![false; bound];
    let mut i: usize = 0;
    while i < xs.len()
        invariant
            i <= xs@.len(),
            seen.len() == bound <= u32::MAX,
            forall|k: int| 0 <= k < xs@.len() ==> (#[trigger] xs@[k]) < bound,
            first_repeat(xs@, 0) == first_repeat(xs@, i as nat),
            forall|v: int|
                0 <= v < bound ==> (#[trigger] seen[v] <==> xs@.take(i as int).contains(
                    v as u32,
                )),
        decreases xs@.len() - i,
    {
        let s: usize = xs[i] as usize;
        assert(seen[s as int] <==> xs@.take(i as int).contains(xs@[i as int]));
        if seen[s] {
            return Some(xs[i]);
        }
        seen.set(s, true);
        proof {
            let a = xs@.take(i as int);
            let b = xs@.take(i + 1);
            assert(b =~= a.push(xs@[i as int]));
            assert forall|v: int| 0 <= v < bound implies (#[trigger] seen[v] <==> b.contains(
                v as u32,
            )) by {
                assert(b[i as int] == xs@[i as int]);
                if a.contains(v as u32) {
                    let k = choose|k: int| 0 <= k < a.len() && a[k] == v as u32;
                    assert(b[k] == v as u32);
                }
                if b.contains(v as u32) && v != s {
                    let k = choose|k: int| 0 <= k < b.len() && b[k] == v as u32;
                    assert(a[k] == v as u32);
                }
                if v != s {
                    assert(a.contains(v as u32) <==> b.contains(v as u32));
                }
            }
        }
        i = i + 1;
    }
    None
}

/// Writes `src` over the front of `dst`.
fn stage(dst: &mut Vec<i32>, src: &[u32])
    requires
        src@.len() <= old(dst).len(),
    ensures
        final(dst)@ == overlay(old(dst)@, as_i32(src@)),
{
    let mut i: usize = 0;
    while i < src.len()
        invariant
            i <= src@.len() <= dst.len(),
            dst.len() == old(dst).len(),
            forall|k: int| 0 <= k < i ==> #[trigger] dst[k] == src@[k] as i32,
            forall|k: int| i <= k < dst.len() ==> #[trigger] dst[k] == old(dst)[k],
        decreases src@.len() - i,
    {
        dst.set(i, src[i] as i32);
        i = i + 1;
    }
    assert(dst@ =~= overlay(old(dst)@, as_i32(src@)));
}

/// Clears the first `n` entries.
fn clear_front(dst: &mut Vec<i32>, n: usize)
    requires
        n <= old(dst).len(),
    ensures
        final(dst)@ == overlay(old(dst)@, Seq::new(n as nat, |i: int| 0i32)),
{
    let mut i: usize = 0;
    while i < n
        invariant
            i <= n <= dst.len(),
            dst.len() == old(dst).len(),
            forall|k: int| 0 <= k < i ==> #[trigger] dst[k] == 0i32,
            forall|k: int| i <= k < dst.len() ==> #[trigger] dst[k] == old(dst)[k],
        decreases n - i,
    {
        dst.set(i, 0);
        i = i + 1;
    }
    assert(dst@ =~= overlay(old(dst)@, Seq::new(n as nat, |i: int| 0i32)));
}

impl BatchedModel {
    /// The configured batch size.
    #[must_use]
    pub fn batch(&self) -> (n: usize)
        ensures
            n == self@.batch,
    {
        self.batch
    }

    /// Row capacity of the model (max rows per step).
    #[must_use]
    pub fn row_capacity(&self) -> (n: usize)
        ensures
            n == self@.rows,
    {
        self.rows
    }

    /// Maximum KV positions per sequence (hard context limit).
    #[must_use]
    pub fn max_seq_len(&self) -> (n: usize)
        ensures
            n == self@.cfg.max_seq_len,
    {
        self.cfg.max_seq_len
    }

    /// Pages per sequence in paged mode.
    #[must_use]
    pub fn max_pages_per_seq(&self) -> (n: usize)
        ensures
            n == self@.max_pages,
    {
        self.max_pages_per_seq
    }

    /// The staged token of each row.
    pub fn staged_tokens(&self) -> (v: &Vec<i32>)
        ensures
            v@ == self@.tokens,
    {
        &self.tokens_host
    }

    /// The staged position of each row.
    pub fn staged_positions(&self) -> (v: &Vec<i32>)
        ensures
            v@ == self@.pos,
    {
        &self.pos_host
    }

    /// The staged slot of each row.
    pub fn staged_slots(&self) -> (v: &Vec<i32>)
        ensures
            v@ == self@.slots,
    {
        &self.slots_host
    }

    /// The staged run mask of each row.
    pub fn staged_run_mask(&self) -> (v: &Vec<i32>)
        ensures
            v@ == self@.run_mask,
    {
        &self.run_mask_host
    }

    /// The staged page offset of each row of a paged model.
    pub fn row_offsets(&self) -> (v: &Vec<i32>)
        ensures
            v@ == self@.offsets,
    {
        &self.offsets_host
    }

    /// The block tables of a paged model, slot by slot.
    pub fn block_tables(&self) -> (v: &Vec<i32>)
        ensures
            v@ == self@.tables,
    {
        &self.tables_host
    }

    /// Whether the KV caches are a page pool.
    #[must_use]
    pub fn is_paged(&self) -> (b: bool)
        ensures
            b == self@.paged,
    {
        self.paged
    }

    /// Positions per page, zero outside paged mode.
    #[must_use]
    pub fn tokens_per_page(&self) -> (n: usize)
        ensures
            n == self@.tokens_per_page,
    {
        self.tokens_per_page
    }

    /// Number of captured decode graphs.
    #[must_use]
    pub fn decode_graph_count(&self) -> (n: usize)
        ensures
            n == self@.decode_graphs.len(),
    {
        self.decode_graphs.len()
    }

    /// Enables or disables graph capture. Captured graphs stay.
    pub fn set_decode_graph_enabled(&mut self, on: bool)
        requires
            old(self).wf(),
        ensures
            final(self).wf(),
            final(self)@ == (ModelView { graph_enabled: on, ..old(self)@ }),
    {
        self.graph_enabled = on;
    }

    /// Arms the layer dump. The per-layer reads cannot be captured, so every graph goes and
    /// capture is off.
    pub fn set_layer_dump(&mut self)
        requires
            old(self).wf(),
        ensures
            final(self).wf(),
            final(self)@ == (ModelView {
                graph_enabled: false,
                decode_graphs: Seq::empty(),
                greedy_graph: false,
                layer_dump: true,
                ..old(self)@
            }),
    {
        self.graph_enabled = false;
        self.decode_graphs = Vec::new();
        self.greedy_graph = false;
        self.layer_dump = true;
        assert(self@.decode_graphs =~= Seq::empty());
    }

    /// Turns the layer dump off. Graph capture stays as it is.
    pub fn clear_layer_dump(&mut self)
        requires
            old(self).wf(),
        ensures
            final(self).wf(),
            final(self)@ == (ModelView { layer_dump: false, ..old(self)@ }),
    {
        self.layer_dump = false;
    }

    /// Turns the step profiler off, for want of device events.
    pub fn disable_profiler(&mut self)
        requires
            old(self).wf(),
        ensures
            final(self).wf(),
            final(self)@ == (ModelView { profile: false, ..old(self)@ }),
    {
        self.profile = false;
    }

    /// Everything to allocate.
    pub fn alloc_buffers(&self) -> (plan: Vec<Allocation>)
        requires
            self.wf(),
        ensures
            plan@ == self@.sizes().buffers().map_values(
                |buf: Buf| self@.sizes().allocation(buf),
            ),
    {
        let sizes = Sizes { cfg: self.cfg, slots: self.batch, rows: self.rows };
        match sizes.alloc_buffers() {
            Some(plan) => plan,
            None => Vec::new(),
        }
    }

    /// Everything to upload from weights of the given extents.
    pub fn upload_weights(&self, w: &ModelLens) -> (uploads: Vec<Upload>)
        requires
            w.fits(),
        ensures
            uploads@ == crate::upload::model_uploads(self@.mode, *w),
    {
        self.mode.upload_weights(w)
    }

    /// Replaces a slot's block table: logical page `l` becomes `phys_pages[l]`, and the pages
    /// past the end repeat the last one. The result is the range of table entries to upload.
    pub fn set_block_table(&mut self, slot: usize, phys_pages: &[u32]) -> (r: Result<
        (usize, usize),
        BatchedError,
    >)
        requires
            old(self).wf(),
        ensures
            final(self).wf(),
            match r {
                Ok(range) => {
                    &&& old(self)@.table_error(slot, phys_pages@) is None
                    &&& range.0 == slot * old(self)@.max_pages
                    &&& range.1 == (slot + 1) * old(self)@.max_pages
                    &&& final(self)@ == (ModelView {
                        tables: old(self)@.with_table(slot, phys_pages@),
                        ..old(self)@
                    })
                },
                Err(e) => old(self)@.table_error(slot, phys_pages@) == Some(e) && final(self)@
                    == old(self)@,
            },
    {
        let ghost v = self@;
        if !self.paged {
            return Err(BatchedError::NotPaged);
        }
        if slot >= self.batch {
            return Err(BatchedError::SlotOutOfRange { slot, batch: self.batch });
        }
        let maxp: usize = self.max_pages_per_seq;
        let pool_pages: usize = self.batch * maxp;
        let len: usize = phys_pages.len();
        if len == 0 || len > maxp {
            return Err(BatchedError::TableLength { len, max_pages: maxp });
        }
        if let Some(page) = find_at_least(phys_pages, pool_pages) {
            return Err(BatchedError::PageOutOfRange { page, pool_pages });
        }
        proof {
            assert((slot + 1) * maxp == slot * maxp + maxp) by (nonlinear_arith);
            assert((slot + 1) * maxp <= self.batch * maxp) by (nonlinear_arith)
                requires
                    slot + 1 <= self.batch,
            ;
            assert(0 <= slot * maxp) by (nonlinear_arith);
        }
        let start: usize = slot * maxp;
        let mut i: usize = 0;
        while i < maxp
            invariant
                i <= maxp,
                start == slot * maxp,
                start + maxp <= self.tables_host.len(),
                0 < len <= maxp,
                len == phys_pages@.len(),
                self.tables_host.len() == v.tables.len(),
                v.tables == old(self)@.tables,
                forall|k: int| 0 <= k < len ==> (#[trigger] phys_pages@[k]) < pool_pages,
                pool_pages <= i32::MAX,
                self@ == (ModelView { tables: self.tables_host@, ..v }),
                forall|k: int|
                    start <= k < start + i ==> #[trigger] self.tables_host[k] == (if k - start
                        < len {
                        phys_pages@[k - start] as i32
                    } else {
                        phys_pages@[len - 1] as i32
                    }),
                forall|k: int|
                    0 <= k < self.tables_host.len() && !(start <= k < start + i)
                        ==> #[trigger] self.tables_host[k] == v.tables[k],
            decreases maxp - i,
        {
            let page: u32 = if i < len {
                phys_pages[i]
            } else {
                phys_pages[len - 1]
            };
            self.tables_host.set(start + i, page as i32);
            i = i + 1;
        }
        proof {
            assert(self@.tables =~= v.with_table(slot, phys_pages@));
            assert forall|k: int| 0 <= k < self@.tables.len() implies 0
                <= #[trigger] self@.tables[k] < self@.pool_pages() by {
                if !(start <= k < start + maxp) {
                    assert(v.tables[k] == self@.tables[k]);
                }
            }
        }
        Ok((start, start + maxp))
    }

    /// Refills the staged row offsets. Nothing outside paged mode.
    fn stage_table_offsets(&mut self, slots: &[u32])
        requires
            old(self).wf(),
            slots@.len() <= old(self)@.rows,
            forall|i: int| 0 <= i < slots@.len() ==> (#[trigger] slots@[i]) < old(self)@.batch,
        ensures
            final(self).wf(),
            final(self)@ == (ModelView {
                offsets: old(self)@.staged_offsets(slots@),
                ..old(self)@
            }),
    {
        let ghost v = self@;
        if !self.paged {
            return ;
        }
        let maxp: usize = self.max_pages_per_seq;
        let mut r: usize = 0;
        while r < slots.len()
            invariant
                r <= slots@.len() <= self.offsets_host.len(),
                self.offsets_host.len() == v.offsets.len(),
                maxp == v.max_pages,
                v.batch * maxp <= i32::MAX,
                forall|i: int| 0 <= i < slots@.len() ==> (#[trigger] slots@[i]) < v.batch,
                self@ == (ModelView { offsets: self.offsets_host@, ..v }),
                forall|k: int|
                    0 <= k < r ==> #[trigger] self.offsets_host[k] == (slots@[k] * maxp) as i32,
                forall|k: int|
                    r <= k < self.offsets_host.len() ==> #[trigger] self.offsets_host[k]
                        == v.offsets[k],
            decreases slots@.len() - r,
        {
            let s: usize = slots[r] as usize;
            proof {
                assert(0 <= s * maxp <= v.batch * maxp) by (nonlinear_arith)
                    requires
                        s < v.batch,
                ;
            }
            self.offsets_host.set(r, (s * maxp) as i32);
            r = r + 1;
        }
        assert(self@.offsets =~= v.staged_offsets(slots@));
    }

    fn make_step(&self, n: usize, decode_only: bool) -> (step: Step)
        requires
            self.wf(),
            n <= self@.rows,
        ensures
            step == self@.step(n as int, decode_only),
            step.fits(),
    {
        proof {
            lemma_fits_fewer(self.cfg, self.rows as int, n as int);
            if self.paged {
                assert(self.max_pages_per_seq <= self.rows * self.max_pages_per_seq)
                    by (nonlinear_arith)
                    requires
                        self.rows >= 1,
                ;
            }
        }
        let q4_experts: bool = match self.mode.storage {
            Storage::Q4 { experts_on_device, .. } => experts_on_device && self.layers.len() > 0,
            _ => false,
        };
        let q4_dense: bool = match self.mode.storage {
            Storage::Q4 { dense_on_device, .. } => dense_on_device,
            _ => false,
        };
        Step {
            cfg: self.cfg,
            rows: n as i32,
            decode_only,
            paged: self.paged,
            tokens_per_page: self.tokens_per_page,
            max_pages_per_seq: self.max_pages_per_seq,
            rotary_dim: self.rotary_dim,
            moe_grouped: self.cfg.moe_grouped,
            expert_slots: self.expert_slots,
            prefetch: self.prefetch,
            profile: self.profile,
            layer_dump: self.layer_dump,
            q4_experts,
            q4_dense,
        }
    }
}

/// A model that can run `rows` rows can run fewer.
pub proof fn lemma_fits_fewer(cfg: Config, rows: int, n: int)
    requires
        cfg.fits(rows),
        0 <= n <= rows,
    ensures
        cfg.fits(n),
{
    let topk = cfg.spec_topk();
    let e = cfg.spec_expert_size() as int;
    let d = cfg.d_model as int;
    let nq = cfg.spec_nq();
    let sh = cfg.spec_shared_size();
    assert(0 <= nq) by (nonlinear_arith)
        requires
            nq == cfg.n_heads * cfg.head_dim,
    ;
    assert(0 <= sh) by (nonlinear_arith)
        requires
            sh == cfg.n_shared_experts * cfg.spec_expert_size(),
    ;
    assert(n * d <= rows * d) by (nonlinear_arith)
        requires
            n <= rows,
            0 <= d,
    ;
    assert(n * nq <= rows * nq) by (nonlinear_arith)
        requires
            n <= rows,
            0 <= nq,
    ;
    assert(n * cfg.intermediate_size <= rows * cfg.intermediate_size) by (nonlinear_arith)
        requires
            n <= rows,
    ;
    assert(n * sh <= rows * sh) by (nonlinear_arith)
        requires
            n <= rows,
            0 <= sh,
    ;
    assert(n * topk <= rows * topk) by (nonlinear_arith)
        requires
            n <= rows,
            0 <= topk,
    ;
    assert(n * topk * e <= rows * topk * e) by (nonlinear_arith)
        requires
            n * topk <= rows * topk,
            0 <= e,
    ;
    assert(n * topk * d <= rows * topk * d) by (nonlinear_arith)
        requires
            n * topk <= rows * topk,
            0 <= d,
    ;
    assert(n * cfg.num_experts <= rows * cfg.num_experts) by (nonlinear_arith)
        requires
            n <= rows,
    ;
}

/// What a saved anchor reads from the device.
pub struct AnchorReads {
    /// Prefix of the sequence in every KV cache.
    pub kv: Vec<Slice>,
    /// Hidden state of the last row.
    pub hidden: Slice,
}

/// What restoring an anchor writes to the device.
pub struct AnchorWrites {
    pub kv: Vec<Slice>,
    /// The hidden state goes back too, if it has the model's width.
    pub hidden: Option<Slice>,
}

/// What the CPU expert computation reads and writes back.
pub struct MoeCpuReads {
    pub ids: Slice,
    pub weights: Slice,
    pub input: Slice,
    pub residual: Slice,
}

impl ModelView {
    /// One row of the hidden state.
    pub open spec fn hidden_row(self, row: int) -> Slice {
        Slice {
            buf: Buf::X,
            offset: (row * self.cfg.d_model * 4) as usize,
            bytes: (self.cfg.d_model * 4) as usize,
        }
    }

    pub open spec fn kv_prefix(self, slot: usize, len: int) -> Seq<Slice> {
        let sizes = self.sizes();
        sizes.kv_buffers().map_values(|buf: Buf| sizes.prefix_slice(buf, slot as int, len))
    }

    /// Why an anchor cannot be saved, if it cannot.
    pub open spec fn save_error(self, slot: usize, tokens: int, token_idx: usize) -> Option<
        BatchedError,
    > {
        if slot >= self.batch {
            Some(BatchedError::SlotOutOfRange { slot, batch: self.batch })
        } else if tokens != token_idx + 1 {
            Some(BatchedError::AnchorLength { token_idx, tokens: tokens as usize })
        } else if self.gdn() {
            Some(BatchedError::AnchorLinearAttention)
        } else {
            None
        }
    }

    /// The state after an anchor at `token_idx` was restored into `slot`.
    pub open spec fn restored(self, slot: usize, token_idx: usize, hidden_len: usize) -> ModelView {
        ModelView {
            lens: self.lens.update(slot as int, (token_idx + 1) as u32),
            last_row: if hidden_len == self.cfg.d_model {
                self.last_row.update(slot as int, slot)
            } else {
                self.last_row
            },
            ..self
        }
    }

    /// The first layer from `li` on whose saved KV has the wrong size.
    pub open spec fn first_bad_layer(
        self,
        sizes: Seq<(usize, usize)>,
        prefix: int,
        li: nat,
    ) -> Option<usize>
        decreases sizes.len() - li,
    {
        if li >= sizes.len() {
            None
        } else {
            let s = self.sizes();
            let kv = s.kv_buffers();
            if sizes[li as int].0 != prefix * s.token_bytes(kv[2 * li as int]) || sizes[li as int].1
                != prefix * s.token_bytes(kv[2 * li as int + 1]) {
                Some(li as usize)
            } else {
                self.first_bad_layer(sizes, prefix, li + 1)
            }
        }
    }

    /// Why an anchor cannot be restored, if it cannot.
    pub open spec fn restore_error(
        self,
        slot: usize,
        token_idx: usize,
        sizes: Seq<(usize, usize)>,
    ) -> Option<BatchedError> {
        if slot >= self.batch {
            Some(BatchedError::SlotOutOfRange { slot, batch: self.batch })
        } else if sizes.len() != self.cfg.n_layers {
            Some(
                BatchedError::AnchorLayers { got: sizes.len() as usize, want: self.cfg.n_layers },
            )
        } else if token_idx + 1 > self.cfg.max_seq_len {
            Some(
                BatchedError::AnchorTooLong {
                    prefix: (token_idx + 1) as usize,
                    max_seq_len: self.cfg.max_seq_len,
                },
            )
        } else if self.first_bad_layer(sizes, token_idx + 1, 0) is Some {
            Some(
                BatchedError::AnchorKvSize {
                    layer: self.first_bad_layer(sizes, token_idx + 1, 0)->0,
                },
            )
        } else {
            None
        }
    }
}

impl BatchedModel {
    /// Whether a step of `n` rows runs as a graph.
    fn graph_capture_ok(&self, n: usize, decode_only: bool) -> (b: bool)
        requires
            self.wf(),
            n <= self@.rows,
        ensures
            b == self@.graph_step(n as int, decode_only),
    {
        let step = self.make_step(n, decode_only);
        self.graph_enabled && step.captures()
    }

    /// The operations of a forward pass over `n` rows.
    fn run_kernels(&self, n: usize, decode_only: bool) -> (ops: Vec<Op>)
        requires
            self.wf(),
            0 < n <= self@.rows,
        ensures
            ops@ == self@.step(n as int, decode_only).forward_ops(
                self@.layers,
                Seq::<Run>::empty(),
            ),
    {
        let step = self.make_step(n, decode_only);
        let runs: Vec<Run> = Vec::new();
        assert(runs@ =~= Seq::<Run>::empty());
        step.run_kernels(&self.layers, &runs)
    }

    /// The operations of the experts of one layer, once their row counts are known.
    pub fn host_experts(
        &self,
        n: usize,
        layer: usize,
        source: crate::device::ExpertSource,
        counts: &Vec<i32>,
    ) -> (ops: Vec<Op>)
        requires
            self.wf(),
            n <= self@.rows,
            counts.len() <= self@.cfg.num_experts,
            forall|e: int| 0 <= e < counts.len() ==> #[trigger] counts[e] >= 0,
            crate::forward::expert_base(counts@, counts@.len()) <= n * self@.cfg.spec_topk(),
        ensures
            ops@ == self@.step(n as int, false).expert_ops(layer, source, counts@, counts@.len()),
    {
        self.make_step(n, false).host_experts(layer, source, counts)
    }

    /// Stages a greedy decode step: one token per sequence, row and slot coincide.
    pub fn decode_step(&mut self, tokens: &[u32]) -> (r: Result<StepWork, BatchedError>)
        requires
            old(self).wf(),
            tokens@.len() == old(self)@.batch,
        ensures
            final(self).wf(),
            match r {
                Ok(work) => {
                    let v = old(self)@;
                    let graph = v.graph_step(v.batch as int, true);
                    &&& v.first_full(0) is None
                    &&& final(self)@ == v.staged_decode(tokens@, graph || v.offsets_dirty)
                    &&& work.rows == v.batch
                    &&& work.graph == graph
                    &&& work.capture == (graph && !v.greedy_graph)
                    &&& work.upload_offsets == (v.paged && (graph || v.offsets_dirty))
                    &&& work.ops@ == v.step(v.batch as int, true).forward_ops(
                        v.layers,
                        Seq::<Run>::empty(),
                    )
                },
                Err(e) => old(self)@.first_full(0) is Some && e == (BatchedError::SequenceFull {
                    seq: old(self)@.first_full(0)->0,
                }) && final(self)@ == old(self)@,
            },
    {
        let ghost v = self@;
        let mut i: usize = 0;
        while i < self.lens.len()
            invariant
                i <= self.lens.len(),
                self@ == v,
                self.wf(),
                v.first_full(0) == v.first_full(i as nat),
                forall|k: int| 0 <= k < i ==> (#[trigger] v.lens[k]) < v.cfg.max_seq_len,
            decreases self.lens.len() - i,
        {
            if self.lens[i] as usize >= self.cfg.max_seq_len {
                return Err(BatchedError::SequenceFull { seq: i });
            }
            i = i + 1;
        }
        let b: usize = self.batch;
        let graph: bool = self.graph_capture_ok(b, true);
        let dirty: bool = self.offsets_dirty;
        let ops = self.run_kernels(b, true);
        let capture: bool = graph && !self.greedy_graph;
        let mut ids: Vec<u32> = Vec::new();
        let mut k: usize = 0;
        while k < b
            invariant
                k <= b <= i32::MAX,
                ids@ == identity_slots(b).take(k as int),
            decreases b - k,
        {
            ids.push(k as u32);
            k = k + 1;
            assert(ids@ =~= identity_slots(b).take(k as int));
        }
        assert(identity_slots(b).take(k as int) =~= identity_slots(b));
        stage(&mut self.tokens_host, tokens);
        stage(&mut self.pos_host, self.lens.as_slice());
        stage(&mut self.slots_host, ids.as_slice());
        clear_front(&mut self.run_mask_host, b);
        let mut r: usize = 0;
        while r < b
            invariant
                r <= b,
                b == v.batch,
                self.last_row_by_slot.len() == b,
                self@ == (ModelView {
                    tokens: overlay(v.tokens, as_i32(tokens@)),
                    pos: overlay(v.pos, as_i32(v.lens)),
                    slots: overlay(v.slots, as_i32(identity_slots(b))),
                    run_mask: overlay(v.run_mask, Seq::new(b as nat, |i: int| 0i32)),
                    last_row: self.last_row_by_slot@,
                    ..v
                }),
                forall|k: int| 0 <= k < r ==> #[trigger] self.last_row_by_slot[k] == k,
            decreases b - r,
        {
            self.last_row_by_slot.set(r, r);
            r = r + 1;
        }
        assert(self@.last_row =~= Seq::new(v.batch as nat, |i: int| i as usize));
        assert(self.wf());
        if graph || dirty {
            self.stage_table_offsets(ids.as_slice());
        }
        Ok(
            StepWork {
                rows: b,
                graph,
                capture,
                upload_offsets: self.paged && (graph || dirty),
                ops,
            },
        )
    }

    /// Ends a greedy decode step that ran: every sequence is one longer, the device offsets
    /// are the identity, and a graph that was captured stays.
    pub fn complete_decode_step(&mut self, work: &StepWork)
        requires
            old(self).wf(),
            old(self)@.first_full(0) is None,
        ensures
            final(self).wf(),
            final(self)@ == (ModelView {
                lens: old(self)@.lens.map_values(|l: u32| (l + 1) as u32),
                offsets_dirty: false,
                greedy_graph: old(self)@.greedy_graph || work.capture,
                ..old(self)@
            }),
    {
        let ghost v = self@;
        let mut i: usize = 0;
        proof {
            lemma_none_full(v, 0);
        }
        while i < self.lens.len()
            invariant
                i <= self.lens.len(),
                self.lens.len() == v.lens.len(),
                v.wf(),
                forall|k: int|
                    0 <= k < v.lens.len() ==> (#[trigger] v.lens[k]) < v.cfg.max_seq_len,
                self@ == (ModelView { lens: self.lens@, ..v }),
                forall|k: int| 0 <= k < i ==> #[trigger] self.lens[k] == v.lens[k] + 1,
                forall|k: int|
                    i <= k < self.lens.len() ==> #[trigger] self.lens[k] == v.lens[k],
            decreases self.lens.len() - i,
        {
            let l: u32 = self.lens[i] + 1;
            self.lens.set(i, l);
            i = i + 1;
        }
        self.offsets_dirty = false;
        if work.capture {
            self.greedy_graph = true;
        }
        assert(self@.lens =~= v.lens.map_values(|l: u32| (l + 1) as u32));
    }

    /// Stages a step of explicit rows: per row a token, a position and a slot.
    pub fn decode_step_explicit(
        &mut self,
        tokens: &[u32],
        lens: &[u32],
        slots: &[u32],
        decode_only: bool,
    ) -> (r: Result<StepWork, BatchedError>)
        requires
            old(self).wf(),
            0 < tokens@.len() <= old(self)@.rows,
            lens@.len() == tokens@.len(),
            slots@.len() == tokens@.len(),
        ensures
            final(self).wf(),
            match r {
                Ok(work) => {
                    let v = old(self)@;
                    let n = tokens@.len() as int;
                    let graph = v.graph_step(n, decode_only);
                    &&& v.rows_error(lens@, slots@) is None
                    &&& final(self)@ == v.staged_rows(tokens@, lens@, slots@)
                    &&& work.rows == n
                    &&& work.graph == graph
                    &&& work.capture == (graph && !v.decode_graphs.contains(n as usize))
                    &&& work.upload_offsets == v.paged
                    &&& work.ops@ == v.step(n, decode_only).forward_ops(
                        v.layers,
                        Seq::<Run>::empty(),
                    )
                },
                Err(e) => old(self)@.rows_error(lens@, slots@) == Some(e) && final(self)@ == old(
                    self,
                )@,
            },
    {
        self.check_rows(lens, slots)?;
        let ghost v = self@;
        let n: usize = tokens.len();
        let graph: bool = self.graph_capture_ok(n, decode_only);
        let capture: bool = graph && !self.has_graph(n);
        let ops = self.run_kernels(n, decode_only);
        self.stage_rows(tokens, lens, slots);
        Ok(StepWork { rows: n, graph, capture, upload_offsets: self.paged, ops })
    }

    /// Positions and slots of explicit rows are in range, and linear attention sees each slot
    /// once.
    fn check_rows(&self, lens: &[u32], slots: &[u32]) -> (r: Result<(), BatchedError>)
        requires
            self.wf(),
        ensures
            match r {
                Ok(_) => self@.rows_error(lens@, slots@) is None && forall|i: int|
                    0 <= i < slots@.len() ==> (#[trigger] slots@[i]) < self@.batch,
                Err(e) => self@.rows_error(lens@, slots@) == Some(e),
            },
    {
        if let Some(pos) = find_at_least(lens, self.cfg.max_seq_len) {
            return Err(
                BatchedError::PositionOutOfRange { pos, max_seq_len: self.cfg.max_seq_len },
            );
        }
        if let Some(slot) = find_at_least(slots, self.batch) {
            return Err(BatchedError::RowSlotOutOfRange { slot, batch: self.batch });
        }
        if self.cfg.gdn_enabled() {
            if let Some(slot) = find_repeat(slots, self.batch) {
                return Err(BatchedError::DuplicateSlot { slot });
            }
        }
        Ok(())
    }

    /// Stages the inputs of explicit rows.
    fn stage_rows(&mut self, tokens: &[u32], lens: &[u32], slots: &[u32])
        requires
            old(self).wf(),
            tokens@.len() <= old(self)@.rows,
            lens@.len() == tokens@.len(),
            slots@.len() == tokens@.len(),
            forall|i: int| 0 <= i < slots@.len() ==> (#[trigger] slots@[i]) < old(self)@.batch,
        ensures
            final(self).wf(),
            final(self)@ == old(self)@.staged_rows(tokens@, lens@, slots@),
    {
        let n: usize = slots.len();
        stage(&mut self.tokens_host, tokens);
        stage(&mut self.pos_host, lens);
        stage(&mut self.slots_host, slots);
        clear_front(&mut self.run_mask_host, n);
        pack_rows(&mut self.last_row_by_slot, slots, self.rows);
        assert(self.wf());
        self.stage_table_offsets(slots);
        self.offsets_dirty = true;
    }

    fn has_graph(&self, n: usize) -> (b: bool)
        ensures
            b == self@.decode_graphs.contains(n),
    {
        let mut i: usize = 0;
        while i < self.decode_graphs.len()
            invariant
                i <= self.decode_graphs.len(),
                forall|k: int| 0 <= k < i ==> #[trigger] self.decode_graphs[k] != n,
            decreases self.decode_graphs.len() - i,
        {
            if self.decode_graphs[i] == n {
                return true;
            }
            i = i + 1;
        }
        false
    }

    /// Records that the graph for a step of explicit rows was captured.
    pub fn complete_capture(&mut self, work: &StepWork)
        requires
            old(self).wf(),
        ensures
            final(self).wf(),
            final(self)@ == (ModelView {
                decode_graphs: if old(self)@.decode_graphs.contains(work.rows) {
                    old(self)@.decode_graphs
                } else {
                    old(self)@.decode_graphs.push(work.rows)
                },
                ..old(self)@
            }),
    {
        if !self.has_graph(work.rows) {
            self.decode_graphs.push(work.rows);
        }
    }

    /// A capture failed: the graph path is off from now on.
    pub fn capture_failed(&mut self)
        requires
            old(self).wf(),
        ensures
            final(self).wf(),
            final(self)@ == (ModelView { graph_enabled: false, ..old(self)@ }),
    {
        self.graph_enabled = false;
    }

    /// The buffers to zero for a reset. All sequences become empty, and the first positions
    /// are staged as zero.
    pub fn reset_state(&mut self) -> (slices: Vec<Slice>)
        requires
            old(self).wf(),
        ensures
            final(self).wf(),
            slices@ == old(self)@.sizes().state_buffers().map_values(
                |buf: Buf|
                    Slice { buf, offset: 0, bytes: old(self)@.sizes().bytes(buf) as usize },
            ),
            final(self)@ == (ModelView {
                lens: Seq::new(old(self)@.batch as nat, |i: int| 0u32),
                pos: overlay(old(self)@.pos, Seq::new(old(self)@.batch as nat, |i: int| 0i32)),
                ..old(self)@
            }),
    {
        let ghost v = self@;
        let sizes = Sizes { cfg: self.cfg, slots: self.batch, rows: self.rows };
        let slices = sizes.reset_slices();
        let b: usize = self.batch;
        self.lens = vec![0; b];
        clear_front(&mut self.pos_host, b);
        assert(self@.lens =~= Seq::new(v.batch as nat, |i: int| 0u32));
        slices
    }

    /// The copies that move a sequence's first `len` positions to another slot.
    pub fn copy_seq_kv(&self, from: usize, to: usize, len: usize) -> (moves: Vec<Move>)
        requires
            self.wf(),
            from < self@.batch,
            to < self@.batch,
            len <= self@.cfg.max_seq_len,
        ensures
            moves@ == self@.sizes().kv_buffers().map_values(
                |buf: Buf|
                    self@.sizes().prefix_move(buf, from as int, to as int, len as int),
            ),
    {
        let sizes = Sizes { cfg: self.cfg, slots: self.batch, rows: self.rows };
        sizes.copy_seq_kv(from, to, len)
    }

    fn hidden_slice(&self, row: usize) -> (s: Slice)
        requires
            self.wf(),
            row < self@.rows,
        ensures
            s == self@.hidden_row(row as int),
    {
        let d: usize = self.cfg.d_model;
        proof {
            assert(0 <= row * d <= self.rows * d) by (nonlinear_arith)
                requires
                    row < self.rows,
            ;
            assert(d <= self.rows * d) by (nonlinear_arith)
                requires
                    self.rows >= 1,
            ;
            assert(self.rows * d * 4 <= usize::MAX);
        }
        Slice { buf: Buf::X, offset: row * d * 4, bytes: d * 4 }
    }

    /// What to read for an anchor at position `token_idx` of a sequence of `tokens` tokens.
    pub fn save_anchor(&self, slot: usize, tokens: usize, token_idx: usize) -> (r: Result<
        AnchorReads,
        BatchedError,
    >)
        requires
            self.wf(),
            self@.save_error(slot, tokens as int, token_idx) is None ==> token_idx
                < self@.cfg.max_seq_len,
        ensures
            match r {
                Ok(reads) => {
                    &&& self@.save_error(slot, tokens as int, token_idx) is None
                    &&& reads.kv@ == self@.kv_prefix(slot, token_idx + 1)
                    &&& reads.hidden == self@.hidden_row(self@.last_row[slot as int] as int)
                },
                Err(e) => self@.save_error(slot, tokens as int, token_idx) == Some(e),
            },
    {
        if slot >= self.batch {
            return Err(BatchedError::SlotOutOfRange { slot, batch: self.batch });
        }
        if tokens == 0 || tokens - 1 != token_idx {
            return Err(BatchedError::AnchorLength { token_idx, tokens });
        }
        if self.cfg.gdn_enabled() {
            return Err(BatchedError::AnchorLinearAttention);
        }
        let sizes = Sizes { cfg: self.cfg, slots: self.batch, rows: self.rows };
        let kv = sizes.prefix_slices(slot, token_idx + 1);
        let row: usize = self.last_row_by_slot[slot];
        Ok(AnchorReads { kv, hidden: self.hidden_slice(row) })
    }

    /// The first layer whose saved KV has not the size of the prefix, whose slices are `kv`.
    fn check_saved_kv(
        &self,
        slot: usize,
        prefix: usize,
        kv_sizes: &Vec<(usize, usize)>,
        kv: &Vec<Slice>,
    ) -> (bad: Option<usize>)
        requires
            self.wf(),
            slot < self@.batch,
            0 < prefix <= self@.cfg.max_seq_len,
            kv_sizes.len() == self@.cfg.n_layers,
            kv@ == self@.kv_prefix(slot, prefix as int),
        ensures
            bad == self@.first_bad_layer(kv_sizes@, prefix as int, 0),
    {
        let ghost v = self@;
        let ghost sizes = v.sizes();
        let mut li: usize = 0;
        proof {
            sizes.lemma_kv_len();
        }
        while li < kv_sizes.len()
            invariant
                li <= kv_sizes.len(),
                v == self@,
                sizes == v.sizes(),
                v.wf(),
                slot < v.batch,
                0 < prefix <= v.cfg.max_seq_len,
                kv_sizes.len() == v.cfg.n_layers,
                kv.len() == 2 * kv_sizes.len(),
                kv@ == v.kv_prefix(slot, prefix as int),
                v.sizes().kv_buffers().len() == kv.len(),
                v.first_bad_layer(kv_sizes@, prefix as int, 0) == v.first_bad_layer(
                    kv_sizes@,
                    prefix as int,
                    li as nat,
                ),
            decreases kv_sizes.len() - li,
        {
            proof {
                sizes.lemma_kv_slice(slot as int, prefix as int, 2 * li);
                sizes.lemma_kv_slice(slot as int, prefix as int, 2 * li + 1);
            }
            let k: usize = kv[2 * li].bytes;
            let w: usize = kv[2 * li + 1].bytes;
            if kv_sizes[li].0 != k || kv_sizes[li].1 != w {
                return Some(li);
            }
            li = li + 1;
        }
        None
    }

    /// Continues the sequence in `slot` behind an anchor at `token_idx`.
    fn place_anchor(&mut self, slot: usize, token_idx: usize, hidden_len: usize) -> (hidden:
        Option<Slice>)
        requires
            old(self).wf(),
            slot < old(self)@.batch,
            token_idx < old(self)@.cfg.max_seq_len,
        ensures
            final(self).wf(),
            final(self)@ == old(self)@.restored(slot, token_idx, hidden_len),
            hidden == if hidden_len == old(self)@.cfg.d_model {
                Some(old(self)@.hidden_row(slot as int))
            } else {
                None
            },
    {
        let ghost v = self@;
        self.lens.set(slot, token_idx as u32 + 1);
        let hidden = if hidden_len == self.cfg.d_model {
            self.last_row_by_slot.set(slot, slot);
            Some(self.hidden_slice(slot))
        } else {
            None
        };
        assert(self@ == v.restored(slot, token_idx, hidden_len));
        hidden
    }

    /// What to write to restore an anchor into a slot: the prefix of every KV cache, and the
    /// hidden state if it has the model's width. The sequence then continues behind the
    /// anchor.
    pub fn restore_anchor(
        &mut self,
        slot: usize,
        token_idx: usize,
        kv_sizes: &Vec<(usize, usize)>,
        hidden_len: usize,
    ) -> (r: Result<AnchorWrites, BatchedError>)
        requires
            old(self).wf(),
            slot < old(self)@.batch && kv_sizes.len() == old(self)@.cfg.n_layers ==> token_idx
                < usize::MAX,
        ensures
            final(self).wf(),
            match r {
                Ok(writes) => {
                    let v = old(self)@;
                    let fits = hidden_len == v.cfg.d_model;
                    &&& v.restore_error(slot, token_idx, kv_sizes@) is None
                    &&& writes.kv@ == v.kv_prefix(slot, token_idx + 1)
                    &&& writes.hidden == if fits {
                        Some(v.hidden_row(slot as int))
                    } else {
                        None
                    }
                    &&& final(self)@ == v.restored(slot, token_idx, hidden_len)
                },
                Err(e) => old(self)@.restore_error(slot, token_idx, kv_sizes@) == Some(e)
                    && final(self)@ == old(self)@,
            },
    {
        let ghost v = self@;
        if slot >= self.batch {
            return Err(BatchedError::SlotOutOfRange { slot, batch: self.batch });
        }
        if kv_sizes.len() != self.cfg.n_layers {
            return Err(
                BatchedError::AnchorLayers { got: kv_sizes.len(), want: self.cfg.n_layers },
            );
        }
        let prefix: usize = token_idx + 1;
        if prefix > self.cfg.max_seq_len {
            return Err(
                BatchedError::AnchorTooLong { prefix, max_seq_len: self.cfg.max_seq_len },
            );
        }
        let sizes = Sizes { cfg: self.cfg, slots: self.batch, rows: self.rows };
        let kv = sizes.prefix_slices(slot, prefix);
        if let Some(layer) = self.check_saved_kv(slot, prefix, kv_sizes, &kv) {
            return Err(BatchedError::AnchorKvSize { layer });
        }
        let hidden = self.place_anchor(slot, token_idx, hidden_len);
        Ok(AnchorWrites { kv, hidden })
    }

    /// The logits of the first `n` rows of the last step.
    pub fn read_logits_rows(&self, n: usize) -> (r: Result<Slice, BatchedError>)
        requires
            self.wf(),
        ensures
            match r {
                Ok(s) => n <= self@.rows && s == (Slice {
                    buf: Buf::Logits,
                    offset: 0,
                    bytes: (n * self@.cfg.vocab_size * 4) as usize,
                }),
                Err(e) => n > self@.rows && e == (BatchedError::RowCount {
                    rows: n,
                    capacity: self@.rows,
                }),
            },
    {
        if n > self.rows {
            return Err(BatchedError::RowCount { rows: n, capacity: self.rows });
        }
        let v: usize = self.cfg.vocab_size;
        proof {
            let sizes = self@.sizes();
            assert(sizes.buffers()[21] == Buf::Logits);
            assert(sizes.factors(sizes.buffers()[21]) == (
                self.rows as int,
                v as int,
                4int,
                1int,
                1int,
            ));
            assert(self.rows * v * 4 * 1 * 1 == self.rows * v * 4) by (nonlinear_arith);
            assert(n * v * 4 <= self.rows * v * 4) by (nonlinear_arith)
                requires
                    n <= self.rows,
            ;
            assert(0 <= n * v <= n * v * 4) by (nonlinear_arith);
        }
        Ok(Slice { buf: Buf::Logits, offset: 0, bytes: n * v * 4 })
    }

    /// The logits of all sequences of the last step.
    pub fn read_logits(&self) -> (r: Result<Slice, BatchedError>)
        requires
            self.wf(),
        ensures
            r == Ok::<Slice, BatchedError>(
                Slice {
                    buf: Buf::Logits,
                    offset: 0,
                    bytes: (self@.batch * self@.cfg.vocab_size * 4) as usize,
                },
            ),
    {
        self.read_logits_rows(self.batch)
    }

    /// What the CPU computes the experts of `n` rows from: routing ids and weights, the
    /// normalized input, and the residual to add to.
    pub fn forward_moe_cpu_batched(&self, n: usize) -> (r: Result<MoeCpuReads, BatchedError>)
        requires
            self.wf(),
            n <= self@.rows,
        ensures
            match r {
                Ok(reads) => {
                    let routed = (n * self@.cfg.spec_topk() * 4) as usize;
                    let dense = (n * self@.cfg.d_model * 4) as usize;
                    &&& self@.host_weights
                    &&& reads.ids == (Slice { buf: Buf::ExpIds, offset: 0, bytes: routed })
                    &&& reads.weights == (Slice { buf: Buf::ExpW, offset: 0, bytes: routed })
                    &&& reads.input == (Slice { buf: Buf::Xn2, offset: 0, bytes: dense })
                    &&& reads.residual == (Slice { buf: Buf::X, offset: 0, bytes: dense })
                },
                Err(e) => !self@.host_weights && e == BatchedError::NoHostWeights,
            },
    {
        if !self.host_weights {
            return Err(BatchedError::NoHostWeights);
        }
        let d: usize = self.cfg.d_model;
        let topk: usize = if self.cfg.num_experts_per_tok < self.cfg.num_experts {
            self.cfg.num_experts_per_tok
        } else {
            self.cfg.num_experts
        };
        proof {
            lemma_fits_fewer(self.cfg, self.rows as int, n as int);
            assert(0 <= n * topk) by (nonlinear_arith);
            assert(0 <= n * d) by (nonlinear_arith);
            assert(n * topk <= n * self.cfg.num_experts) by (nonlinear_arith)
                requires
                    topk <= self.cfg.num_experts,
            ;
            if topk > 0 {
                self@.sizes().lemma_routed_allocated();
                assert(n * topk * 4 <= self.rows * topk * 4) by (nonlinear_arith)
                    requires
                        n <= self.rows,
                ;
            } else {
                assert(n * topk * 4 == 0) by (nonlinear_arith)
                    requires
                        topk == 0,
                ;
            }
        }
        let routed: usize = n * topk * 4;
        let dense: usize = n * d * 4;
        Ok(
            MoeCpuReads {
                ids: Slice { buf: Buf::ExpIds, offset: 0, bytes: routed },
                weights: Slice { buf: Buf::ExpW, offset: 0, bytes: routed },
                input: Slice { buf: Buf::Xn2, offset: 0, bytes: dense },
                residual: Slice { buf: Buf::X, offset: 0, bytes: dense },
            },
        )
    }
}

/// Remembers for each slot the last row that it occupies.
fn pack_rows(last_row: &mut Vec<usize>, slots: &[u32], rows: usize)
    requires
        slots@.len() <= rows,
        forall|i: int| 0 <= i < slots@.len() ==> (#[trigger] slots@[i]) < old(last_row).len(),
        forall|i: int| 0 <= i < old(last_row).len() ==> (#[trigger] old(last_row)[i]) < rows,
    ensures
        final(last_row)@ == packed_rows(old(last_row)@, slots@, slots@.len()),
        final(last_row).len() == old(last_row).len(),
        forall|i: int| 0 <= i < final(last_row).len() ==> (#[trigger] final(last_row)[i]) < rows,
{
    let mut r: usize = 0;
    while r < slots.len()
        invariant
            r <= slots@.len() <= rows,
            last_row.len() == old(last_row).len(),
            last_row@ == packed_rows(old(last_row)@, slots@, r as nat),
            forall|i: int| 0 <= i < slots@.len() ==> (#[trigger] slots@[i]) < last_row.len(),
            forall|i: int| 0 <= i < last_row.len() ==> (#[trigger] last_row[i]) < rows,
        decreases slots@.len() - r,
    {
        last_row.set(slots[r] as usize, r);
        r = r + 1;
    }
}

proof fn lemma_none_full(v: ModelView, i: nat)
    requires
        v.first_full(i) is None,
    ensures
        forall|k: int| i <= k < v.lens.len() ==> (#[trigger] v.lens[k]) < v.cfg.max_seq_len,
    decreases v.lens.len() - i,
{
    if i < v.lens.len() {
        lemma_none_full(v, i + 1);
    }
}

} // verus!
