//! The scratch of half-precision products is wide enough for every product of a forward pass.

use vstd::prelude::*;

use crate::buffers::product5;
use crate::buffers::Sizes;
use crate::device::Buf;
use crate::device::ExpertSource;
use crate::device::GemmPath;
use crate::device::Op;
use crate::device::Run;
use crate::device::Tensor;
use crate::dispatch_laws::all_ops;
use crate::dispatch_laws::lemma_all_concat;
use crate::forward::expert_base;
use crate::forward::lemma_expert_base;
use crate::forward::LayerDev;
use crate::forward::Step;

verus! {

/// A half-precision product converts `rows * k` inputs into one scratch buffer and finds its
/// `rows * n` outputs in another.
pub open spec fn scratched(sizes: Sizes) -> spec_fn(Op) -> bool {
    |op: Op|
        match op {
            Op::Gemm { path, n, k, rows, .. } => path == GemmPath::BatchedF16 ==> 0 <= rows * k
                && 0 <= rows * n && rows * k * 2 <= sizes.bytes(Buf::Xh) && rows * n * 2
                <= sizes.bytes(Buf::Yh),
            Op::ExpertGemm { source, n, k, rows, .. } => source == ExpertSource::F16 ==> 0 <= rows
                * k && 0 <= rows * n && rows * k * 2 <= sizes.bytes(Buf::XhMoe) && rows * n * 2
                <= sizes.bytes(Buf::YhMoe),
            _ => true,
        }
}

/// The step runs on buffers of these sizes.
pub open spec fn runs_on(step: Step, sizes: Sizes) -> bool {
    &&& sizes.wf()
    &&& step.cfg == sizes.cfg
    &&& 0 <= step.rows <= sizes.rows
}

/// A projection no wider than the widest stays inside the scratch. Single precision needs none.
proof fn lemma_gemm(step: Step, sizes: Sizes, n: int, k: int)
    requires
        runs_on(step, sizes),
        0 <= k <= i32::MAX,
        0 <= n <= i32::MAX,
        sizes.half() ==> k <= sizes.widest_input() && n <= sizes.widest_output(),
    ensures
        forall|out: Buf, x: Buf, li: usize, t: Tensor, q4: bool|
            scratched(sizes)(#[trigger] step.gemm(out, x, li, t, q4, n, k)),
{
    if sizes.half() {
        lemma_scratch(step.rows as int, sizes.rows as int, k, sizes.widest_input());
        lemma_scratch(step.rows as int, sizes.rows as int, n, sizes.widest_output());
    }
}

proof fn lemma_scratch(r: int, rows: int, w: int, width: int)
    requires
        0 <= r <= rows,
        0 <= w <= width,
    ensures
        0 <= r * w,
        r * w * 2 <= product5((rows, width, 2, 1, 1)),
{
    assert(rows * width * 2 * 1 * 1 == rows * width * 2) by (nonlinear_arith);
    assert(0 <= r * w <= rows * width) by (nonlinear_arith)
        requires
            0 <= r <= rows,
            0 <= w <= width,
    ;
}

/// The widths of all projections are among those that the scratch covers.
proof fn lemma_widths(s: Sizes)
    requires
        s.wf(),
    ensures
        0 <= s.cfg.n_heads * s.cfg.v_head_dim <= i32::MAX,
        0 <= s.cfg.n_heads * s.cfg.qk_nope_head_dim <= i32::MAX,
        0 <= s.cfg.n_heads * s.cfg.qk_rope_head_dim <= i32::MAX,
        0 <= s.cfg.n_heads * (s.cfg.qk_nope_head_dim + s.cfg.v_head_dim) <= i32::MAX,
        0 <= s.cfg.spec_nq(),
        0 <= s.cfg.spec_nkv(),
        0 <= s.cfg.spec_gdn_value_dim() <= i32::MAX,
        0 <= s.cfg.spec_conv_dim(),
        0 <= s.cfg.spec_shared_size(),
        s.half() ==> {
            &&& s.cfg.spec_shared_size() <= s.widest_input()
            &&& s.cfg.spec_shared_size() <= s.widest_output()
        },
        s.half() && s.cfg.kv_lora_rank > 0 ==> {
            &&& s.cfg.n_heads * s.cfg.v_head_dim <= s.widest_input()
            &&& s.cfg.n_heads * s.cfg.qk_nope_head_dim <= s.widest_output()
            &&& s.cfg.n_heads * s.cfg.qk_rope_head_dim <= s.widest_output()
            &&& s.cfg.n_heads * (s.cfg.qk_nope_head_dim + s.cfg.v_head_dim) <= s.widest_output()
        },
        s.half() && s.cfg.kv_lora_rank == 0 ==> {
            &&& s.cfg.spec_nq() <= s.widest_input()
            &&& s.cfg.spec_nkv() <= s.widest_output()
            &&& s.cfg.spec_gdn_value_dim() <= s.widest_input()
            &&& s.cfg.spec_gdn_value_dim() <= s.widest_output()
            &&& s.cfg.spec_conv_dim() <= s.widest_output()
        },
{
    let c = s.cfg;
    let (h, nope, rope, v) = (
        c.n_heads as int,
        c.qk_nope_head_dim as int,
        c.qk_rope_head_dim as int,
        c.v_head_dim as int,
    );
    assert(0 <= h * v <= h * (nope + v) && 0 <= h * nope <= h * (nope + v) && 0 <= h * rope <= h
        * (nope + rope)) by (nonlinear_arith)
        requires
            0 <= h,
            0 <= nope,
            0 <= rope,
            0 <= v,
    ;
    lemma_product(c.n_heads as nat, c.head_dim as nat);
    lemma_product(c.n_kv_heads as nat, c.head_dim as nat);
    lemma_product(c.gdn_k_heads as nat, c.gdn_head_dim as nat);
    lemma_product(c.gdn_v_heads as nat, c.gdn_head_dim as nat);
    lemma_product(c.n_shared_experts as nat, c.spec_expert_size());
}

proof fn lemma_product(a: nat, b: nat)
    ensures
        0 <= a * b,
{
    assert(0 <= a * b) by (nonlinear_arith);
}

proof fn lemma_mla_project(step: Step, s: Sizes, li: usize)
    requires
        runs_on(step, s),
        step.cfg.kv_lora_rank > 0,
    ensures
        all_ops(step.mla_project_ops(li), scratched(s)),
{
    let c = step.cfg;
    let h = c.n_heads as int;
    let q_k = if c.q_lora_rank > 0 {
        c.q_lora_rank as int
    } else {
        c.d_model as int
    };
    lemma_widths(s);
    lemma_gemm(step, s, q_k, c.d_model as int);
    lemma_gemm(step, s, h * c.qk_nope_head_dim, q_k);
    lemma_gemm(step, s, h * c.qk_rope_head_dim, q_k);
    lemma_gemm(step, s, c.kv_lora_rank + c.qk_rope_head_dim, c.d_model as int);
    lemma_gemm(step, s, h * (c.qk_nope_head_dim + c.v_head_dim), c.kv_lora_rank as int);
}

proof fn lemma_mla_attend(step: Step, s: Sizes, li: usize)
    requires
        runs_on(step, s),
        step.cfg.kv_lora_rank > 0,
    ensures
        all_ops(step.mla_attend_ops(li), scratched(s)),
{
    lemma_widths(s);
    lemma_gemm(step, s, step.cfg.d_model as int, step.cfg.n_heads * step.cfg.v_head_dim);
}

proof fn lemma_gdn(step: Step, s: Sizes, li: usize, l: LayerDev)
    requires
        runs_on(step, s),
        step.cfg.kv_lora_rank == 0,
    ensures
        all_ops(step.gdn_ops(li, l), scratched(s)),
{
    let c = step.cfg;
    let d = c.d_model as int;
    lemma_widths(s);
    lemma_gemm(step, s, step.spec_conv_dim(), d);
    lemma_gemm(step, s, c.spec_gdn_value_dim(), d);
    lemma_gemm(step, s, c.gdn_v_heads as int, d);
    lemma_gemm(step, s, d, c.spec_gdn_value_dim());
}

proof fn lemma_qkv(step: Step, s: Sizes, li: usize, l: LayerDev)
    requires
        runs_on(step, s),
        step.cfg.kv_lora_rank == 0,
    ensures
        all_ops(step.qkv_ops(li, l), scratched(s)),
{
    let d = step.cfg.d_model as int;
    let nq_rows = if step.cfg.attn_output_gate {
        2 * step.spec_nq()
    } else {
        step.spec_nq()
    };
    lemma_widths(s);
    lemma_gemm(step, s, nq_rows, d);
    lemma_gemm(step, s, step.spec_nkv(), d);
}

proof fn lemma_rotate(step: Step, s: Sizes, li: usize, l: LayerDev)
    ensures
        all_ops(step.rotate_ops(li, l), scratched(s)),
{
}

proof fn lemma_attend(step: Step, s: Sizes, li: usize, runs: Seq<Run>)
    ensures
        all_ops(step.attend_ops(li, runs), scratched(s)),
{
}

proof fn lemma_attn_out(step: Step, s: Sizes, li: usize, l: LayerDev)
    requires
        runs_on(step, s),
        step.cfg.kv_lora_rank == 0,
    ensures
        all_ops(step.attn_out_ops(li, l), scratched(s)),
{
    lemma_widths(s);
    lemma_gemm(step, s, step.cfg.d_model as int, step.spec_nq());
}

proof fn lemma_grouped(step: Step, s: Sizes, li: usize)
    ensures
        all_ops(step.grouped_ops(li), scratched(s)),
{
}

proof fn lemma_segmented(step: Step, s: Sizes, li: usize)
    ensures
        all_ops(step.segmented_ops(li), scratched(s)),
{
}

proof fn lemma_shared(step: Step, s: Sizes, li: usize)
    requires
        runs_on(step, s),
    ensures
        all_ops(step.shared_ops(li), scratched(s)),
{
    let d = step.cfg.d_model as int;
    lemma_widths(s);
    lemma_gemm(step, s, step.spec_shared_size(), d);
    lemma_gemm(step, s, d, step.spec_shared_size());
}

proof fn lemma_mlp(step: Step, s: Sizes, li: usize, l: LayerDev)
    requires
        runs_on(step, s),
    ensures
        all_ops(step.mlp_ops(li, l), scratched(s)),
{
    let d = step.cfg.d_model as int;
    let w = step.cfg.intermediate_size as int;
    lemma_gemm(step, s, w, d);
    lemma_gemm(step, s, d, w);
}

proof fn lemma_dump(step: Step, s: Sizes, li: usize, l: LayerDev)
    ensures
        all_ops(step.dump_ops(li, l), scratched(s)),
{
}

proof fn lemma_attention(step: Step, s: Sizes, li: usize, l: LayerDev, runs: Seq<Run>)
    requires
        runs_on(step, s),
    ensures
        all_ops(step.attention_ops(li, l, runs), scratched(s)),
{
    let p = scratched(s);
    if step.cfg.kv_lora_rank > 0 {
        lemma_mla_project(step, s, li);
        lemma_mla_attend(step, s, li);
        lemma_all_concat(step.mla_project_ops(li), step.mla_attend_ops(li), p);
    } else if l.has_gdn {
        lemma_gdn(step, s, li, l);
    } else {
        let a = step.qkv_ops(li, l);
        let b = step.rotate_ops(li, l);
        let c = step.attend_ops(li, runs);
        let d = step.attn_out_ops(li, l);
        lemma_qkv(step, s, li, l);
        lemma_rotate(step, s, li, l);
        lemma_attend(step, s, li, runs);
        lemma_attn_out(step, s, li, l);
        lemma_all_concat(a, b, p);
        lemma_all_concat(a + b, c, p);
        lemma_all_concat(a + b + c, d, p);
    }
}

proof fn lemma_moe(step: Step, s: Sizes, li: usize, l: LayerDev)
    requires
        runs_on(step, s),
    ensures
        all_ops(step.moe_ops(li, l), scratched(s)),
{
    let p = scratched(s);
    let m = step.moe_ops(li, l);
    if step.spec_topk() as i32 != 0 {
        let front = m.take(2);
        let rest = m.skip(2);
        assert(m =~= front + rest);
        lemma_gemm(step, s, step.cfg.num_experts as int, step.cfg.d_model as int);
        assert(all_ops(front, p));
        if !step.offloaded() {
            let a = crate::forward::opt(step.prefetch, Op::PrefetchReady { layer: li });
            let b = if step.grouped() {
                step.grouped_ops(li)
            } else {
                step.segmented_ops(li)
            };
            let c = if l.has_shared {
                step.shared_ops(li)
            } else {
                Seq::empty()
            };
            let d = seq![step.add_residual(Buf::X, Buf::HAcc)];
            lemma_grouped(step, s, li);
            lemma_segmented(step, s, li);
            lemma_shared(step, s, li);
            lemma_all_concat(a, b, p);
            lemma_all_concat(a + b, c, p);
            lemma_all_concat(a + b + c, d, p);
            assert(rest =~= a + b + c + d);
        }
        lemma_all_concat(front, rest, p);
    }
}

proof fn lemma_second_half(step: Step, s: Sizes, li: usize, l: LayerDev)
    requires
        runs_on(step, s),
    ensures
        all_ops(step.second_half_ops(li, l), scratched(s)),
{
    let p = scratched(s);
    let n = seq![step.layer_norm(Buf::X, li, Tensor::RmsMlp, Buf::Xn2, step.cfg.d_model as int)];
    let m = if step.is_moe(l) {
        step.moe_ops(li, l)
    } else {
        step.mlp_ops(li, l)
    };
    let e = crate::forward::opt(
        step.profiled(li),
        Op::Record { point: crate::device::ProfPoint::MlpDone(li) },
    ) + crate::forward::opt(step.prefetch, Op::PrefetchLayerEnd { layer: li });
    lemma_mlp(step, s, li, l);
    lemma_moe(step, s, li, l);
    lemma_dump(step, s, li, l);
    lemma_all_concat(n, m, p);
    lemma_all_concat(n + m, step.dump_ops(li, l), p);
    lemma_all_concat(n + m + step.dump_ops(li, l), e, p);
    assert(step.second_half_ops(li, l) =~= n + m + step.dump_ops(li, l) + e);
}

proof fn lemma_layers(step: Step, s: Sizes, layers: Seq<LayerDev>, runs: Seq<Run>, n: nat)
    requires
        runs_on(step, s),
        n <= layers.len(),
    ensures
        all_ops(step.layers_ops(layers, runs, n), scratched(s)),
    decreases n,
{
    if n > 0 {
        let p = scratched(s);
        let li = (n - 1) as usize;
        let l = layers[n - 1];
        lemma_layers(step, s, layers, runs, (n - 1) as nat);
        lemma_attention(step, s, li, l, runs);
        lemma_second_half(step, s, li, l);
        let att = step.attention_ops(li, l, runs);
        let a = crate::forward::opt(
            step.profiled(li),
            Op::Record { point: crate::device::ProfPoint::LayerStart(li) },
        ) + crate::forward::opt(step.prefetch, Op::PrefetchLayerBegin { layer: li }) + seq![
            step.layer_norm(Buf::X, li, Tensor::RmsAttn, Buf::Xn, step.cfg.d_model as int),
        ];
        let b = crate::forward::opt(
            step.profiled(li),
            Op::Record { point: crate::device::ProfPoint::AttnDone(li) },
        ) + crate::forward::opt(
            step.layer_dump,
            Op::DumpMid { layer: li, rows: step.rows, d: step.spec_d() },
        );
        lemma_all_concat(a, att, p);
        lemma_all_concat(a + att, b, p);
        assert(step.first_half_ops(li, l, runs) =~= a + att + b);
        lemma_all_concat(step.first_half_ops(li, l, runs), step.second_half_ops(li, l), p);
        lemma_all_concat(
            step.layers_ops(layers, runs, (n - 1) as nat),
            step.layer_ops(li, l, runs),
            p,
        );
    }
}

/// Every half-precision product of a forward pass finds room for its converted inputs and
/// outputs in the scratch that was allocated.
pub proof fn lemma_forward_fits_scratch(
    step: Step,
    sizes: Sizes,
    layers: Seq<LayerDev>,
    runs: Seq<Run>,
)
    requires
        runs_on(step, sizes),
    ensures
        all_ops(step.forward_ops(layers, runs), scratched(sizes)),
{
    let p = scratched(sizes);
    let n = layers.len();
    let c = step.cfg;
    lemma_layers(step, sizes, layers, runs, n);
    assert(all_ops(step.head_ops(), p));
    assert(all_ops(step.tail_ops(), p)) by {
        lemma_scratch(
            step.rows as int,
            sizes.rows as int,
            c.d_model as int,
            sizes.widest_input(),
        );
        lemma_scratch(
            step.rows as int,
            sizes.rows as int,
            c.vocab_size as int,
            sizes.widest_output(),
        );
    }
    lemma_all_concat(step.head_ops(), step.layers_ops(layers, runs, n), p);
    lemma_all_concat(
        step.head_ops() + step.layers_ops(layers, runs, n),
        step.tail_ops(),
        p,
    );
}

/// So does every product of a single expert, for any counts of routed rows that add up.
pub proof fn lemma_experts_fit_scratch(
    step: Step,
    sizes: Sizes,
    layer: usize,
    source: ExpertSource,
    counts: Seq<i32>,
    n: nat,
)
    requires
        runs_on(step, sizes),
        n <= counts.len(),
        forall|e: int| 0 <= e < counts.len() ==> #[trigger] counts[e] >= 0,
        expert_base(counts, counts.len()) <= step.rows * step.spec_topk(),
    ensures
        all_ops(step.expert_ops(layer, source, counts, n), scratched(sizes)),
    decreases n,
{
    if n > 0 {
        let p = scratched(sizes);
        let e = (n - 1) as nat;
        let rows = counts[e as int];
        let c = step.cfg;
        let cap = sizes.rows * c.spec_topk();
        let width = vstd::math::max(c.d_model as int, sizes.moe_width());
        lemma_experts_fit_scratch(step, sizes, layer, source, counts, e);
        lemma_expert_base(counts, e, counts.len());
        assert(step.rows * step.spec_topk() <= cap) by (nonlinear_arith)
            requires
                step.rows <= sizes.rows,
                step.spec_topk() == c.spec_topk(),
                0 <= c.spec_topk(),
                cap == sizes.rows * c.spec_topk(),
        ;
        lemma_scratch(rows as int, cap, c.d_model as int, width);
        lemma_scratch(rows as int, cap, c.spec_expert_size() as int, width);
        if rows > 0 {
            let ops = step.one_expert_ops(layer, source, e, expert_base(counts, e), rows);
            assert(all_ops(ops, p));
            lemma_all_concat(step.expert_ops(layer, source, counts, e), ops, p);
        } else {
            lemma_all_concat(step.expert_ops(layer, source, counts, e), Seq::empty(), p);
        }
    }
}

} // verus!
