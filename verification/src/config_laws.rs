//! What a configuration means for the layers of a model, and what a model hands to its steps.

use vstd::prelude::*;

use crate::batched::fresh_model;
use crate::batched::layer_devs;
use crate::batched::rotary_dim_of;
use crate::batched::ModelView;
use crate::config::above_one;
use crate::config::at_least_one;
use crate::config::Config;
use crate::config::F32Bits;
use crate::config::ModelDType;
use crate::engine_model::EngineView;
use crate::fp8_tensor::block_count;
use crate::fp8_tensor::Fp8View;
use crate::greedy::greater32;
use crate::upload::ModelLens;
use crate::upload::Storage;

verus! {

/// With an interval, exactly the last of each group of that many layers runs full attention;
/// without one, every layer does.
pub proof fn lemma_full_attention_layers(c: Config, group: nat, i: nat)
    requires
        c.full_attention_interval > 0 ==> i < c.full_attention_interval,
    ensures
        ({
            let n = c.full_attention_interval as nat;
            &&& n > 0 ==> (c.spec_full_attn(group * n + i) <==> i == n - 1)
            &&& n == 0 ==> c.spec_full_attn(group * n + i)
        }),
{
    let n = c.full_attention_interval as nat;
    if n > 0 {
        if i == n - 1 {
            assert(group * n + i + 1 == (group + 1) * n) by (nonlinear_arith)
                requires
                    i == n - 1,
            ;
            vstd::arithmetic::div_mod::lemma_mod_multiples_basic((group + 1) as int, n as int);
        } else {
            vstd::arithmetic::mul::lemma_mul_is_commutative(group as int, n as int);
            vstd::arithmetic::div_mod::lemma_fundamental_div_mod_converse(
                (group * n + i + 1) as int,
                n as int,
                group as int,
                (i + 1) as int,
            );
        }
    }
}

/// The factors that stretch the context, and the rotary fraction, are compared with one as
/// numbers are.
pub proof fn lemma_compares_with_one(x: F32Bits)
    ensures
        above_one(x) <==> greater32(x, 0x3f80_0000),
        at_least_one(x) <==> greater32(x, 0x3f80_0000) || x == 0x3f80_0000,
{
}

/// A model rotates whole pairs of coordinates, at least one and at most those of the head: all of
/// them for a fraction of one or more, and else as many as the product gives.
pub proof fn lemma_rotary(c: Config, product: usize)
    requires
        c.head_dim >= 2,
        c.head_dim % 2 == 0,
    ensures
        ({
            let r = rotary_dim_of(c, product);
            &&& r % 2 == 0
            &&& 2 <= r <= c.head_dim
            &&& at_least_one(c.rope_rotary_pct) ==> r == c.head_dim
            &&& !at_least_one(c.rope_rotary_pct) && 2 <= product <= c.head_dim ==> r <= product < r
                + 2
            &&& !at_least_one(c.rope_rotary_pct) && product > c.head_dim ==> r == c.head_dim
        }),
{
}

/// A step takes over what its model is.
pub proof fn lemma_step_of_model(v: ModelView, n: int, decode_only: bool)
    requires
        0 <= n <= v.rows <= i32::MAX,
    ensures
        ({
            let s = v.step(n, decode_only);
            &&& s.cfg == v.cfg
            &&& s.rows == n
            &&& s.decode_only == decode_only
            &&& s.paged == v.paged
            &&& s.tokens_per_page == v.tokens_per_page
            &&& s.max_pages_per_seq == v.max_pages
            &&& s.rotary_dim == v.rotary_dim
            &&& s.moe_grouped == v.cfg.moe_grouped
            &&& s.expert_slots == v.expert_slots
            &&& s.prefetch == v.prefetch
            &&& s.profile == v.profile
            &&& s.layer_dump == v.layer_dump
            &&& s.q4_dense <==> (v.mode.storage matches Storage::Q4 { dense_on_device: true, .. })
            &&& v.layers.len() > 0 ==> (s.q4_experts <==> (v.mode.storage matches Storage::Q4 {
                experts_on_device: true,
                ..
            }))
        }),
{
}

/// A new model is empty: nothing is staged, no sequence has a position, no page table and no graph
/// exists, and its precision, sizes and layers are those asked for.
pub proof fn lemma_new_model(
    cfg: Config,
    w: ModelLens,
    storage: Storage,
    slots: usize,
    rows: usize,
    expert_slots: usize,
    product: usize,
)
    ensures
        ({
            let v = fresh_model(cfg, w, storage, slots, rows, expert_slots, product);
            &&& (v.cfg, v.batch, v.rows) == (cfg, slots, rows)
            &&& v.mode.storage == storage
            &&& v.mode.half == (cfg.dtype == ModelDType::F16)
            &&& v.mode.resident == (expert_slots >= cfg.num_experts)
            &&& v.expert_slots == expert_slots
            &&& v.rotary_dim == rotary_dim_of(cfg, product)
            &&& v.layers == layer_devs(v.mode, w)
            &&& v.lens.len() == slots && v.last_row.len() == slots
            &&& v.tokens.len() == rows && v.pos.len() == rows && v.slots.len() == rows
            &&& forall|i: int| 0 <= i < slots ==> #[trigger] v.lens[i] == 0
            &&& !v.paged && !v.prefetch && !v.host_weights && !v.layer_dump && !v.offsets_dirty
            &&& !v.graph_enabled && v.decode_graphs.len() == 0 && !v.greedy_graph
            &&& v.profile == cfg.step_profile
        }),
{
}

/// A new engine has no sequence, and pages exactly if its model does.
pub proof fn lemma_new_engine(model: ModelView, rows: usize, capacity: usize, anchors: bool)
    ensures
        ({
            let e = EngineView::fresh(model, rows, capacity, anchors);
            &&& e.model == model
            &&& (e.prefill_rows, e.capacity, e.save_anchors) == (rows, capacity, anchors)
            &&& e.seqs.len() == 0 && e.finished.len() == 0
            &&& e.paged is Some <==> model.paged
            &&& e.paged matches Some(p) ==> p.tokens_per_page == model.tokens_per_page
                && p.tables.len() == 0 && p.entries.len() == 0 && p.retired.len() == 0
                && p.requests == 0 && p.reused_tokens == 0 && p.prompt_tokens == 0
        }),
{
}

/// The blocks of a quantized tensor hold all its elements, and none of them is empty.
pub proof fn lemma_blocks(n: nat, block: nat)
    requires
        block > 0,
    ensures
        n <= block_count(n, block) * block < n + block,
{
    vstd::arithmetic::div_mod::lemma_fundamental_div_mod(n as int, block as int);
    let q = n / block;
    assert(q * block == block * q && (q + 1) * block == block * q + block) by (nonlinear_arith);
}

/// Two quantized tensors join exactly if one of them is empty, or they have the same block size
/// and the first fills its last block.
pub proof fn lemma_joins(a: Fp8View, b: Fp8View)
    requires
        a.wf(),
        b.wf(),
    ensures
        a.concat(b) is Some <==> a.q.len() == 0 || b.q.len() == 0 || (a.block == b.block
            && a.q.len() == block_count(a.q.len(), a.block as nat) * a.block),
{
    if a.q.len() > 0 {
        let (n, k) = (a.q.len() as int, a.block as int);
        vstd::arithmetic::div_mod::lemma_fundamental_div_mod(n, k);
        let q = n / k;
        assert(q * k == k * q && (q + 1) * k == k * q + k) by (nonlinear_arith);
    }
}

} // verus!
