//! What holds of every forward pass: it reads only weights that were uploaded, a step that may
//! be captured into a graph needs nothing from outside the stream, and a paged model never
//! touches its caches but through the block tables.

use vstd::prelude::*;

use crate::device::Buf;
use crate::device::DeviceCopy;
use crate::device::ExpertSource;
use crate::device::GemmPath;
use crate::device::Op;
use crate::device::Run;
use crate::device::Tensor;
use crate::device::Weight;
use crate::forward::LayerDev;
use crate::forward::Step;
use crate::upload::LayerLens;
use crate::upload::ModelLens;
use crate::upload::UploadMode;

verus! {

/// Every operation of `ops` satisfies `p`.
pub open spec fn all_ops(ops: Seq<Op>, p: spec_fn(Op) -> bool) -> bool {
    forall|i: int| 0 <= i < ops.len() ==> p(#[trigger] ops[i])
}

/// What holds of two sequences of operations holds of both together.
pub proof fn lemma_all_concat(a: Seq<Op>, b: Seq<Op>, p: spec_fn(Op) -> bool)
    requires
        all_ops(a, p),
        all_ops(b, p),
    ensures
        all_ops(a + b, p),
{
    assert forall|i: int| 0 <= i < (a + b).len() implies p(#[trigger] (a + b)[i]) by {
        if i < a.len() {
            assert((a + b)[i] == a[i]);
        } else {
            assert((a + b)[i] == b[i - a.len()]);
        }
    }
}

/// The weights that an operation reads from the device.
pub open spec fn reads(op: Op) -> Seq<Weight> {
    let at = |layer: usize, tensor: Tensor, copy: DeviceCopy| Weight {
        layer: Some(layer),
        tensor,
        copy,
    };
    let expert = |layer: usize, source: ExpertSource, tensor: Tensor| match source {
        ExpertSource::Q4 => seq![at(layer, tensor, DeviceCopy::Q4)],
        ExpertSource::F16 => seq![at(layer, tensor, DeviceCopy::F16)],
        ExpertSource::Resident => seq![at(layer, tensor, DeviceCopy::F32)],
        ExpertSource::Prefetched => Seq::empty(),
    };
    match op {
        Op::Embed { copy, .. } => seq![Weight { layer: None, tensor: Tensor::TokEmb, copy }],
        Op::RmsNorm { w, .. } => seq![w],
        Op::Gemm { w, .. } => seq![w],
        Op::GemvF16Qkv { layer, .. } => seq![
            at(layer, Tensor::Wq, DeviceCopy::F16),
            at(layer, Tensor::Wk, DeviceCopy::F16),
            at(layer, Tensor::Wv, DeviceCopy::F16),
        ],
        Op::AddBias { bias, .. } => seq![bias],
        Op::QkNorm { layer, .. } => seq![
            at(layer, Tensor::QNorm, DeviceCopy::F32),
            at(layer, Tensor::KNorm, DeviceCopy::F32),
        ],
        Op::GdnConvUpdate { layer, .. } => seq![at(layer, Tensor::GdnConvW, DeviceCopy::F32)],
        Op::GdnStep { layer, .. } => seq![
            at(layer, Tensor::GdnALog, DeviceCopy::F32),
            at(layer, Tensor::GdnDtBias, DeviceCopy::F32),
        ],
        Op::GdnGatedNorm { layer, .. } => seq![at(layer, Tensor::GdnNorm, DeviceCopy::F32)],
        Op::MoeGroupedGateUp { layer, source, .. } => expert(layer, source, Tensor::MoeWg)
            + expert(layer, source, Tensor::MoeWu),
        Op::MoeGroupedDown { layer, source, .. } => expert(layer, source, Tensor::MoeWd),
        Op::MoeHostExperts { layer, source } => expert(layer, source, Tensor::MoeWg) + expert(
            layer,
            source,
            Tensor::MoeWu,
        ) + expert(layer, source, Tensor::MoeWd),
        Op::ExpertGemm { layer, source, tensor, .. } => expert(layer, source, tensor),
        _ => Seq::empty(),
    }
}

/// A device copy that the model holds.
pub open spec fn holds(mode: UploadMode, model: ModelLens, w: Weight) -> bool {
    match w.layer {
        None => match w.tensor {
            Tensor::TokEmb => mode.has_copy(w.tensor, model.tok_emb.len, w.copy),
            Tensor::LmHead => mode.has_copy(w.tensor, model.lm_head.len, w.copy),
            Tensor::RmsFinal => mode.has_copy(w.tensor, model.rms_final.len, w.copy),
            _ => false,
        },
        Some(li) => li < model.layers.len() && crate::upload::layer_tensors().contains(w.tensor)
            && mode.has_copy(w.tensor, model.layers[li as int].spec_get(w.tensor).len, w.copy),
    }
}

/// Every weight that an operation reads is held.
pub open spec fn stocked(mode: UploadMode, model: ModelLens) -> spec_fn(Op) -> bool {
    |op: Op|
        forall|k: int|
            0 <= k < reads(op).len() ==> holds(mode, model, #[trigger] reads(op)[k])
}

/// The step runs on the model that `mode` uploaded.
pub open spec fn matches_mode(step: Step, mode: UploadMode, model: ModelLens) -> bool {
    &&& step.spec_half() == mode.half
    &&& !(mode.storage is Full) ==> mode.half
    &&& step.q4_dense == mode.packed_dense()
    &&& step.q4_experts == mode.packed_experts()
    &&& mode.resident == (step.expert_slots >= step.cfg.num_experts)
    &&& mode.packed_dense() ==> step.cfg.kv_lora_rank == 0
    &&& step.prefetch ==> mode.storage is Full && !mode.half
    &&& model.tok_emb.len > 0
    &&& model.lm_head.len > 0
}

/// A layer carries the tensors that its kind of layer needs.
pub open spec fn complete(step: Step, lens: LayerLens) -> bool {
    let c = step.cfg;
    &&& if c.kv_lora_rank > 0 {
        &&& c.q_lora_rank > 0 ==> lens.mla_q_a.len > 0 && lens.mla_q_a_norm.len > 0
        &&& lens.mla_q_b.len > 0
        &&& lens.mla_q_rope.len > 0
        &&& lens.mla_kv_a.len > 0
        &&& lens.mla_kv_a_norm.len > 0
        &&& lens.mla_kv_b.len > 0
        &&& lens.mla_o.len > 0
    } else if lens.gdn_in_qkv.len > 0 {
        &&& lens.gdn_in_z.len > 0
        &&& lens.gdn_in_a.len > 0
        &&& lens.gdn_in_b.len > 0
        &&& lens.gdn_out.len > 0
        &&& lens.gdn_conv_w.len > 0
        &&& lens.gdn_a_log.len > 0
        &&& lens.gdn_dt_bias.len > 0
        &&& lens.gdn_norm.len > 0
    } else {
        &&& lens.wq.len > 0
        &&& lens.wk.len > 0
        &&& lens.wv.len > 0
        &&& lens.wo.len > 0
        &&& lens.q_norm.len > 0 ==> lens.k_norm.len > 0
    }
    &&& if c.num_experts > 0 && lens.moe_router.len > 0 {
        &&& lens.moe_wg.len > 0
        &&& lens.moe_wu.len > 0
        &&& lens.moe_wd.len > 0
        &&& lens.shared_wg.len > 0 ==> lens.shared_wu.len > 0 && lens.shared_wd.len > 0
    } else {
        &&& lens.wg.len > 0
        &&& lens.wu.len > 0
        &&& lens.wd.len > 0
    }
}

proof fn lemma_listed(t: Tensor)
    requires
        t != Tensor::TokEmb,
        t != Tensor::LmHead,
        t != Tensor::RmsFinal,
    ensures
        crate::upload::layer_tensors().contains(t),
{
    let l = crate::upload::layer_tensors();
    assert(exists|i: int| 0 <= i < l.len() && l[i] == t) by {
        let i: int = match t {
            Tensor::Wq => 0,
            Tensor::Wk => 1,
            Tensor::Wv => 2,
            Tensor::Wo => 3,
            Tensor::RmsAttn => 4,
            Tensor::Wg => 5,
            Tensor::Wu => 6,
            Tensor::Wd => 7,
            Tensor::RmsMlp => 8,
            Tensor::Bq => 9,
            Tensor::Bk => 10,
            Tensor::Bv => 11,
            Tensor::QNorm => 12,
            Tensor::KNorm => 13,
            Tensor::MlaQA => 14,
            Tensor::MlaQANorm => 15,
            Tensor::MlaQB => 16,
            Tensor::MlaQRope => 17,
            Tensor::MlaKvA => 18,
            Tensor::MlaKvANorm => 19,
            Tensor::MlaKvB => 20,
            Tensor::MlaO => 21,
            Tensor::MoeRouter => 22,
            Tensor::MoeWg => 23,
            Tensor::MoeWu => 24,
            Tensor::MoeWd => 25,
            Tensor::SharedWg => 26,
            Tensor::SharedWu => 27,
            Tensor::SharedWd => 28,
            Tensor::GdnInQkv => 29,
            Tensor::GdnInZ => 30,
            Tensor::GdnInA => 31,
            Tensor::GdnInB => 32,
            Tensor::GdnOut => 33,
            Tensor::GdnConvW => 34,
            Tensor::GdnALog => 35,
            Tensor::GdnDtBias => 36,
            _ => 37,
        };
        assert(l[i] == t);
    }
}

proof fn lemma_held(mode: UploadMode, model: ModelLens, li: usize, t: Tensor, copy: DeviceCopy)
    requires
        li < model.layers.len(),
        mode.has_copy(t, model.layers[li as int].spec_get(t).len, copy),
        t != Tensor::TokEmb,
        t != Tensor::LmHead,
        t != Tensor::RmsFinal,
    ensures
        holds(mode, model, Weight { layer: Some(li), tensor: t, copy }),
{
    lemma_listed(t);
}

/// A projection reads a form of its tensor that the model holds.
proof fn lemma_stocked_gemm(
    step: Step,
    mode: UploadMode,
    model: ModelLens,
    li: usize,
    t: Tensor,
    q4: bool,
)
    requires
        matches_mode(step, mode, model),
        li < model.layers.len(),
        model.layers[li as int].spec_get(t).len > 0,
        q4 == mode.packed_copy(t, model.layers[li as int].spec_get(t).len),
        crate::upload::class_of(t) != crate::upload::Class::Table,
        crate::upload::class_of(t) != crate::upload::Class::Norm,
        crate::upload::class_of(t) != crate::upload::Class::Vector,
        crate::upload::class_of(t) != crate::upload::Class::Expert,
    ensures
        forall|out: Buf, x: Buf, n: int, k: int|
            stocked(mode, model)(#[trigger] step.gemm(out, x, li, t, q4, n, k)),
{
    assert forall|out: Buf, x: Buf, n: int, k: int|
        stocked(mode, model)(#[trigger] step.gemm(out, x, li, t, q4, n, k)) by {
        let copy = crate::forward::path_copy(step.gemm_path(q4, k));
        lemma_held(mode, model, li, t, copy);
    }
}

proof fn lemma_stocked_mla_project(step: Step, mode: UploadMode, model: ModelLens, li: usize)
    requires
        matches_mode(step, mode, model),
        li < model.layers.len(),
        complete(step, model.layers[li as int]),
        step.cfg.kv_lora_rank > 0,
    ensures
        all_ops(step.mla_project_ops(li), stocked(mode, model)),
{
    if step.cfg.q_lora_rank > 0 {
        lemma_stocked_gemm(step, mode, model, li, Tensor::MlaQA, false);
        lemma_held(mode, model, li, Tensor::MlaQANorm, DeviceCopy::F32);
    }
    lemma_stocked_gemm(step, mode, model, li, Tensor::MlaQB, false);
    lemma_stocked_gemm(step, mode, model, li, Tensor::MlaQRope, false);
    lemma_stocked_gemm(step, mode, model, li, Tensor::MlaKvA, false);
    lemma_held(mode, model, li, Tensor::MlaKvANorm, DeviceCopy::F32);
    lemma_stocked_gemm(step, mode, model, li, Tensor::MlaKvB, false);
}

proof fn lemma_stocked_mla_attend(step: Step, mode: UploadMode, model: ModelLens, li: usize)
    requires
        matches_mode(step, mode, model),
        li < model.layers.len(),
        complete(step, model.layers[li as int]),
        step.cfg.kv_lora_rank > 0,
    ensures
        all_ops(step.mla_attend_ops(li), stocked(mode, model)),
{
    lemma_stocked_gemm(step, mode, model, li, Tensor::MlaO, false);
}

proof fn lemma_stocked_gdn(step: Step, mode: UploadMode, model: ModelLens, li: usize)
    requires
        matches_mode(step, mode, model),
        li < model.layers.len(),
        complete(step, model.layers[li as int]),
        step.cfg.kv_lora_rank == 0,
        model.layers[li as int].gdn_in_qkv.len > 0,
    ensures
        all_ops(
            step.gdn_ops(li, crate::upload::layer_dev(mode, model.layers[li as int])),
            stocked(mode, model),
        ),
{
    let l = crate::upload::layer_dev(mode, model.layers[li as int]);
    lemma_stocked_gemm(step, mode, model, li, Tensor::GdnInQkv, l.q4_gdn_in_qkv);
    lemma_stocked_gemm(step, mode, model, li, Tensor::GdnInZ, l.q4_gdn_in_z);
    lemma_stocked_gemm(step, mode, model, li, Tensor::GdnInA, false);
    lemma_stocked_gemm(step, mode, model, li, Tensor::GdnInB, false);
    lemma_stocked_gemm(step, mode, model, li, Tensor::GdnOut, l.q4_gdn_out);
    lemma_held(mode, model, li, Tensor::GdnConvW, DeviceCopy::F32);
    lemma_held(mode, model, li, Tensor::GdnALog, DeviceCopy::F32);
    lemma_held(mode, model, li, Tensor::GdnDtBias, DeviceCopy::F32);
    lemma_held(mode, model, li, Tensor::GdnNorm, DeviceCopy::F32);
}

proof fn lemma_stocked_qkv(step: Step, mode: UploadMode, model: ModelLens, li: usize)
    requires
        matches_mode(step, mode, model),
        li < model.layers.len(),
        complete(step, model.layers[li as int]),
        step.cfg.kv_lora_rank == 0,
        model.layers[li as int].gdn_in_qkv.len == 0,
    ensures
        all_ops(
            step.qkv_ops(li, crate::upload::layer_dev(mode, model.layers[li as int])),
            stocked(mode, model),
        ),
{
    let l = crate::upload::layer_dev(mode, model.layers[li as int]);
    lemma_stocked_gemm(step, mode, model, li, Tensor::Wq, l.q4_wq);
    lemma_stocked_gemm(step, mode, model, li, Tensor::Wk, l.q4_wk);
    lemma_stocked_gemm(step, mode, model, li, Tensor::Wv, l.q4_wv);
    if step.fused_qkv(l) {
        lemma_held(mode, model, li, Tensor::Wq, DeviceCopy::F16);
        lemma_held(mode, model, li, Tensor::Wk, DeviceCopy::F16);
        lemma_held(mode, model, li, Tensor::Wv, DeviceCopy::F16);
    }
}

proof fn lemma_stocked_rotate(step: Step, mode: UploadMode, model: ModelLens, li: usize)
    requires
        matches_mode(step, mode, model),
        li < model.layers.len(),
        complete(step, model.layers[li as int]),
        step.cfg.kv_lora_rank == 0,
        model.layers[li as int].gdn_in_qkv.len == 0,
    ensures
        all_ops(
            step.rotate_ops(li, crate::upload::layer_dev(mode, model.layers[li as int])),
            stocked(mode, model),
        ),
{
    let l = crate::upload::layer_dev(mode, model.layers[li as int]);
    if l.has_bq {
        lemma_held(mode, model, li, Tensor::Bq, DeviceCopy::F32);
    }
    if l.has_bk {
        lemma_held(mode, model, li, Tensor::Bk, DeviceCopy::F32);
    }
    if l.has_bv {
        lemma_held(mode, model, li, Tensor::Bv, DeviceCopy::F32);
    }
    if l.has_q_norm {
        lemma_held(mode, model, li, Tensor::QNorm, DeviceCopy::F32);
        lemma_held(mode, model, li, Tensor::KNorm, DeviceCopy::F32);
    }
}

proof fn lemma_stocked_attend(
    step: Step,
    mode: UploadMode,
    model: ModelLens,
    li: usize,
    runs: Seq<Run>,
)
    requires
        matches_mode(step, mode, model),
        li < model.layers.len(),
        complete(step, model.layers[li as int]),
    ensures
        all_ops(step.attend_ops(li, runs), stocked(mode, model)),
{
}

proof fn lemma_stocked_attn_out(step: Step, mode: UploadMode, model: ModelLens, li: usize)
    requires
        matches_mode(step, mode, model),
        li < model.layers.len(),
        complete(step, model.layers[li as int]),
        step.cfg.kv_lora_rank == 0,
        model.layers[li as int].gdn_in_qkv.len == 0,
    ensures
        all_ops(
            step.attn_out_ops(li, crate::upload::layer_dev(mode, model.layers[li as int])),
            stocked(mode, model),
        ),
{
    let l = crate::upload::layer_dev(mode, model.layers[li as int]);
    lemma_stocked_gemm(step, mode, model, li, Tensor::Wo, l.q4_wo);
}

proof fn lemma_stocked_grouped(step: Step, mode: UploadMode, model: ModelLens, li: usize)
    requires
        matches_mode(step, mode, model),
        li < model.layers.len(),
        complete(step, model.layers[li as int]),
        step.cfg.num_experts > 0,
        model.layers[li as int].moe_router.len > 0,
        !step.offloaded(),
    ensures
        all_ops(step.grouped_ops(li), stocked(mode, model)),
{
    let source = if step.q4_experts {
        ExpertSource::Q4
    } else {
        step.expert_source()
    };
    let copy = match source {
        ExpertSource::Q4 => DeviceCopy::Q4,
        ExpertSource::F16 => DeviceCopy::F16,
        _ => DeviceCopy::F32,
    };
    if source != ExpertSource::Prefetched {
        lemma_held(mode, model, li, Tensor::MoeWg, copy);
        lemma_held(mode, model, li, Tensor::MoeWu, copy);
        lemma_held(mode, model, li, Tensor::MoeWd, copy);
    }
}

proof fn lemma_stocked_segmented(step: Step, mode: UploadMode, model: ModelLens, li: usize)
    requires
        matches_mode(step, mode, model),
        li < model.layers.len(),
        complete(step, model.layers[li as int]),
        step.cfg.num_experts > 0,
        model.layers[li as int].moe_router.len > 0,
        !step.offloaded(),
        !step.q4_experts,
    ensures
        all_ops(step.segmented_ops(li), stocked(mode, model)),
{
    let source = if step.q4_experts {
        ExpertSource::Q4
    } else {
        step.expert_source()
    };
    let copy = match source {
        ExpertSource::Q4 => DeviceCopy::Q4,
        ExpertSource::F16 => DeviceCopy::F16,
        _ => DeviceCopy::F32,
    };
    if source != ExpertSource::Prefetched {
        lemma_held(mode, model, li, Tensor::MoeWg, copy);
        lemma_held(mode, model, li, Tensor::MoeWu, copy);
        lemma_held(mode, model, li, Tensor::MoeWd, copy);
    }
}

proof fn lemma_stocked_shared(step: Step, mode: UploadMode, model: ModelLens, li: usize)
    requires
        matches_mode(step, mode, model),
        li < model.layers.len(),
        complete(step, model.layers[li as int]),
        step.cfg.num_experts > 0,
        model.layers[li as int].moe_router.len > 0,
        model.layers[li as int].shared_wg.len > 0,
    ensures
        all_ops(step.shared_ops(li), stocked(mode, model)),
{
    lemma_stocked_gemm(step, mode, model, li, Tensor::SharedWg, false);
    lemma_stocked_gemm(step, mode, model, li, Tensor::SharedWu, false);
    lemma_stocked_gemm(step, mode, model, li, Tensor::SharedWd, false);
}

proof fn lemma_stocked_mlp(step: Step, mode: UploadMode, model: ModelLens, li: usize)
    requires
        matches_mode(step, mode, model),
        li < model.layers.len(),
        complete(step, model.layers[li as int]),
        !(step.cfg.num_experts > 0 && model.layers[li as int].moe_router.len > 0),
    ensures
        all_ops(
            step.mlp_ops(li, crate::upload::layer_dev(mode, model.layers[li as int])),
            stocked(mode, model),
        ),
{
    let l = crate::upload::layer_dev(mode, model.layers[li as int]);
    lemma_stocked_gemm(step, mode, model, li, Tensor::Wg, l.q4_wg);
    lemma_stocked_gemm(step, mode, model, li, Tensor::Wu, l.q4_wu);
    lemma_stocked_gemm(step, mode, model, li, Tensor::Wd, l.q4_wd);
}

proof fn lemma_stocked_dump(step: Step, mode: UploadMode, model: ModelLens, li: usize)
    requires
        matches_mode(step, mode, model),
        li < model.layers.len(),
        complete(step, model.layers[li as int]),
    ensures
        all_ops(
            step.dump_ops(li, crate::upload::layer_dev(mode, model.layers[li as int])),
            stocked(mode, model),
        ),
{
}

proof fn lemma_stocked_moe(step: Step, mode: UploadMode, model: ModelLens, li: usize)
    requires
        matches_mode(step, mode, model),
        li < model.layers.len(),
        complete(step, model.layers[li as int]),
        step.cfg.num_experts > 0,
        model.layers[li as int].moe_router.len > 0,
    ensures
        all_ops(
            step.moe_ops(li, crate::upload::layer_dev(mode, model.layers[li as int])),
            stocked(mode, model),
        ),
{
    let p = stocked(mode, model);
    let l = crate::upload::layer_dev(mode, model.layers[li as int]);
    let ops = step.moe_ops(li, l);
    if step.spec_topk() as i32 != 0 {
        lemma_stocked_gemm(step, mode, model, li, Tensor::MoeRouter, false);
        let front = ops.take(2);
        assert(all_ops(front, p));
        let rest = ops.skip(2);
        assert(ops =~= front + rest);
        if step.offloaded() {
            assert(all_ops(rest, p));
        } else {
            let a = crate::forward::opt(
                step.prefetch,
                Op::PrefetchReady { layer: li },
            );
            let b = if step.grouped() {
                step.grouped_ops(li)
            } else {
                step.segmented_ops(li)
            };
            let c = if l.has_shared {
                step.shared_ops(li)
            } else {
                Seq::empty()
            };
            let d = seq![step.add_residual(Buf::X, Buf::HAcc)];
            if step.grouped() {
                lemma_stocked_grouped(step, mode, model, li);
            } else {
                lemma_stocked_segmented(step, mode, model, li);
            }
            if l.has_shared {
                lemma_stocked_shared(step, mode, model, li);
            }
            lemma_all_concat(a, b, p);
            lemma_all_concat(a + b, c, p);
            lemma_all_concat(a + b + c, d, p);
            assert(rest =~= a + b + c + d);
        }
        lemma_all_concat(front, rest, p);
    }
}

proof fn lemma_stocked_attention(
    step: Step,
    mode: UploadMode,
    model: ModelLens,
    li: usize,
    runs: Seq<Run>,
)
    requires
        matches_mode(step, mode, model),
        li < model.layers.len(),
        complete(step, model.layers[li as int]),
    ensures
        all_ops(
            step.attention_ops(
                li,
                crate::upload::layer_dev(mode, model.layers[li as int]),
                runs,
            ),
            stocked(mode, model),
        ),
{
    let p = stocked(mode, model);
    let l = crate::upload::layer_dev(mode, model.layers[li as int]);
    if step.cfg.kv_lora_rank > 0 {
        lemma_stocked_mla_project(step, mode, model, li);
        lemma_stocked_mla_attend(step, mode, model, li);
        lemma_all_concat(step.mla_project_ops(li), step.mla_attend_ops(li), p);
    } else if l.has_gdn {
        lemma_stocked_gdn(step, mode, model, li);
    } else {
        lemma_stocked_qkv(step, mode, model, li);
        lemma_stocked_rotate(step, mode, model, li);
        lemma_stocked_attend(step, mode, model, li, runs);
        lemma_stocked_attn_out(step, mode, model, li);
        let a = step.qkv_ops(li, l);
        let b = step.rotate_ops(li, l);
        let c = step.attend_ops(li, runs);
        lemma_all_concat(a, b, p);
        lemma_all_concat(a + b, c, p);
        lemma_all_concat(a + b + c, step.attn_out_ops(li, l), p);
    }
}

proof fn lemma_stocked_layer(
    step: Step,
    mode: UploadMode,
    model: ModelLens,
    li: usize,
    runs: Seq<Run>,
)
    requires
        matches_mode(step, mode, model),
        li < model.layers.len(),
        complete(step, model.layers[li as int]),
    ensures
        all_ops(
            step.layer_ops(
                li,
                crate::upload::layer_dev(mode, model.layers[li as int]),
                runs,
            ),
            stocked(mode, model),
        ),
{
    let p = stocked(mode, model);
    let l = crate::upload::layer_dev(mode, model.layers[li as int]);
    lemma_held(mode, model, li, Tensor::RmsAttn, DeviceCopy::F32);
    lemma_held(mode, model, li, Tensor::RmsMlp, DeviceCopy::F32);
    lemma_stocked_attention(step, mode, model, li, runs);
    let first = step.first_half_ops(li, l, runs);
    let att = step.attention_ops(li, l, runs);
    let a = crate::forward::opt(
        step.profiled(li),
        Op::Record { point: crate::device::ProfPoint::LayerStart(li) },
    ) + crate::forward::opt(step.prefetch, Op::PrefetchLayerBegin { layer: li }) + seq![
        step.layer_norm(Buf::X, li, Tensor::RmsAttn, Buf::Xn, step.cfg.d_model as int),
    ];
    let b = crate::forward::opt(
        step.profiled(li),
        Op::Record { point: crate::device::ProfPoint::AttnDone(li) },
    ) + crate::forward::opt(
        step.layer_dump,
        Op::DumpMid { layer: li, rows: step.rows, d: step.spec_d() },
    );
    lemma_all_concat(a, att, p);
    lemma_all_concat(a + att, b, p);
    assert(first =~= a + att + b);
    let second = step.second_half_ops(li, l);
    let n = seq![step.layer_norm(Buf::X, li, Tensor::RmsMlp, Buf::Xn2, step.cfg.d_model as int)];
    let m = if step.is_moe(l) {
        step.moe_ops(li, l)
    } else {
        step.mlp_ops(li, l)
    };
    let e = crate::forward::opt(
        step.profiled(li),
        Op::Record { point: crate::device::ProfPoint::MlpDone(li) },
    ) + crate::forward::opt(step.prefetch, Op::PrefetchLayerEnd { layer: li });
    if step.is_moe(l) {
        lemma_stocked_moe(step, mode, model, li);
    } else {
        lemma_stocked_mlp(step, mode, model, li);
    }
    lemma_stocked_dump(step, mode, model, li);
    lemma_all_concat(n, m, p);
    lemma_all_concat(n + m, step.dump_ops(li, l), p);
    lemma_all_concat(n + m + step.dump_ops(li, l), e, p);
    assert(second =~= n + m + step.dump_ops(li, l) + e);
    lemma_all_concat(first, second, p);
}

proof fn lemma_stocked_layers(
    step: Step,
    mode: UploadMode,
    model: ModelLens,
    layers: Seq<LayerDev>,
    runs: Seq<Run>,
    n: nat,
)
    requires
        matches_mode(step, mode, model),
        layers.len() == model.layers.len(),
        n <= layers.len(),
        model.layers.len() <= usize::MAX,
        forall|i: int|
            0 <= i < layers.len() ==> #[trigger] layers[i] == crate::upload::layer_dev(
                mode,
                model.layers[i],
            ) && complete(step, model.layers[i]),
    ensures
        all_ops(step.layers_ops(layers, runs, n), stocked(mode, model)),
    decreases n,
{
    if n > 0 {
        let m = (n - 1) as nat;
        assert(layers[m as int] == crate::upload::layer_dev(mode, model.layers[m as int]));
        lemma_stocked_layers(step, mode, model, layers, runs, m);
        lemma_stocked_layer(step, mode, model, m as usize, runs);
        lemma_all_concat(
            step.layers_ops(layers, runs, m),
            step.layer_ops(m as usize, layers[m as int], runs),
            stocked(mode, model),
        );
    }
}

/// Every weight that a forward pass reads was uploaded in the form in which it is read.
pub proof fn lemma_forward_reads_uploaded(
    step: Step,
    mode: UploadMode,
    model: ModelLens,
    layers: Seq<LayerDev>,
    runs: Seq<Run>,
)
    requires
        matches_mode(step, mode, model),
        layers.len() == model.layers.len(),
        forall|i: int|
            0 <= i < layers.len() ==> #[trigger] layers[i] == crate::upload::layer_dev(
                mode,
                model.layers[i],
            ) && complete(step, model.layers[i]),
    ensures
        forall|i: int, k: int|
            0 <= i < step.forward_ops(layers, runs).len() && 0 <= k < reads(
                step.forward_ops(layers, runs)[i],
            ).len() ==> exists|u: int|
                0 <= u < crate::upload::model_uploads(mode, model).len()
                    && (#[trigger] crate::upload::model_uploads(mode, model)[u]).weight
                    == #[trigger] reads(step.forward_ops(layers, runs)[i])[k],
{
    let p = stocked(mode, model);
    let n = layers.len();
    lemma_stocked_layers(step, mode, model, layers, runs, n);
    assert(all_ops(step.head_ops(), p));
    assert(all_ops(step.tail_ops(), p));
    lemma_all_concat(step.head_ops(), step.layers_ops(layers, runs, n), p);
    lemma_all_concat(
        step.head_ops() + step.layers_ops(layers, runs, n),
        step.tail_ops(),
        p,
    );
    let ops = step.forward_ops(layers, runs);
    let ups = crate::upload::model_uploads(mode, model);
    assert forall|i: int, k: int|
        0 <= i < ops.len() && 0 <= k < reads(ops[i]).len() implies exists|u: int|
        0 <= u < ups.len() && (#[trigger] ups[u]).weight == #[trigger] reads(ops[i])[k] by {
        assert(p(ops[i]));
        lemma_held_is_uploaded(mode, model, reads(ops[i])[k]);
    }
}

/// What the model holds is what was uploaded.
pub proof fn lemma_held_is_uploaded(mode: UploadMode, model: ModelLens, w: Weight)
    requires
        holds(mode, model, w),
    ensures
        exists|u: int|
            0 <= u < crate::upload::model_uploads(mode, model).len()
                && (#[trigger] crate::upload::model_uploads(mode, model)[u]).weight == w,
{
    let ups = crate::upload::model_uploads(mode, model);
    let a = mode.table_uploads(Tensor::TokEmb, model.tok_emb);
    let b = mode.table_uploads(Tensor::LmHead, model.lm_head);
    let c = mode.table_uploads(Tensor::RmsFinal, model.rms_final);
    let d = crate::upload::layers_uploads(mode, model.layers@, model.layers@.len());
    match w.layer {
        None => {
            let lens = match w.tensor {
                Tensor::TokEmb => model.tok_emb,
                Tensor::LmHead => model.lm_head,
                _ => model.rms_final,
            };
            let t = mode.table_uploads(w.tensor, lens);
            let k: int = match w.copy {
                DeviceCopy::F32 => 0,
                DeviceCopy::F16 => if mode.has_copy(w.tensor, lens.len, DeviceCopy::F32) {
                    1
                } else {
                    0
                },
                DeviceCopy::Q4 => t.len() - 1,
            };
            assert(t[k].weight == w);
            let base: int = match w.tensor {
                Tensor::TokEmb => 0,
                Tensor::LmHead => a.len() as int,
                _ => (a.len() + b.len()) as int,
            };
            assert(ups[base + k] == t[k]);
        },
        Some(li) => {
            let n = model.layers@.len();
            let lens = model.layers[li as int];
            let i = choose|i: int|
                0 <= i < crate::upload::layer_tensors().len()
                    && crate::upload::layer_tensors()[i] == w.tensor;
            let len = crate::upload::layer_tensors().len();
            lemma_copy_listed(mode, li, lens, w.copy, i, len);
            let row = mode.layer_copies(li, lens, w.copy, len);
            let k = choose|k: int| 0 <= k < row.len() && (#[trigger] row[k]).weight == w;
            let f = mode.layer_copies(li, lens, DeviceCopy::F32, len);
            let h = mode.layer_copies(li, lens, DeviceCopy::F16, len);
            let off: int = match w.copy {
                DeviceCopy::F32 => 0,
                DeviceCopy::F16 => f.len() as int,
                DeviceCopy::Q4 => (f.len() + h.len()) as int,
            };
            let all = mode.layer_uploads(li, lens);
            assert(all[off + k] == row[k]);
            lemma_layer_listed(mode, model.layers@, li as nat, n, off + k);
            let u = choose|u: int| 0 <= u < d.len() && #[trigger] d[u] == all[off + k];
            let base = (a.len() + b.len() + c.len()) as int;
            assert(ups[base + u] == d[u]);
        },
    }
}

proof fn lemma_copy_listed(
    mode: UploadMode,
    li: usize,
    lens: LayerLens,
    copy: DeviceCopy,
    i: int,
    n: nat,
)
    requires
        0 <= i < n <= crate::upload::layer_tensors().len(),
        mode.has_copy(
            crate::upload::layer_tensors()[i],
            lens.spec_get(crate::upload::layer_tensors()[i]).len,
            copy,
        ),
    ensures
        exists|k: int|
            0 <= k < mode.layer_copies(li, lens, copy, n).len() && (#[trigger] mode.layer_copies(
                li,
                lens,
                copy,
                n,
            )[k]).weight == (Weight {
                layer: Some(li),
                tensor: crate::upload::layer_tensors()[i],
                copy,
            }),
    decreases n,
{
    let row = mode.layer_copies(li, lens, copy, n);
    if i == n - 1 {
        assert(row[row.len() - 1].weight.tensor == crate::upload::layer_tensors()[i]);
    } else {
        lemma_copy_listed(mode, li, lens, copy, i, (n - 1) as nat);
        let rest = mode.layer_copies(li, lens, copy, (n - 1) as nat);
        let w = Weight { layer: Some(li), tensor: crate::upload::layer_tensors()[i], copy };
        let k = choose|k: int| 0 <= k < rest.len() && (#[trigger] rest[k]).weight == w;
        assert(row[k] == rest[k]);
    }
}

proof fn lemma_layer_listed(
    mode: UploadMode,
    layers: Seq<LayerLens>,
    li: nat,
    n: nat,
    k: int,
)
    requires
        li < n <= layers.len() <= usize::MAX,
        0 <= k < mode.layer_uploads(li as usize, layers[li as int]).len(),
    ensures
        exists|u: int|
            0 <= u < crate::upload::layers_uploads(mode, layers, n).len()
                && #[trigger] crate::upload::layers_uploads(mode, layers, n)[u]
                == mode.layer_uploads(li as usize, layers[li as int])[k],
    decreases n,
{
    let all = crate::upload::layers_uploads(mode, layers, n);
    let rest = crate::upload::layers_uploads(mode, layers, (n - 1) as nat);
    if li == n - 1 {
        assert(all[rest.len() + k] == mode.layer_uploads(li as usize, layers[li as int])[k]);
    } else {
        lemma_layer_listed(mode, layers, li, (n - 1) as nat, k);
        let want = mode.layer_uploads(li as usize, layers[li as int])[k];
        let u = choose|u: int| 0 <= u < rest.len() && #[trigger] rest[u] == want;
        assert(all[u] == rest[u]);
    }
}

/// An operation that only enqueues work on the stream: no host read, no second stream, no
/// library GEMM with a workspace of its own.
pub open spec fn capturable(op: Op) -> bool {
    match op {
        Op::Gemm { path, .. } => path == GemmPath::GemvF16 || path == GemmPath::GemvQ4,
        Op::MoeCpu { .. } => false,
        Op::Memset { .. } => false,
        Op::MoeReadCounts { .. } => false,
        Op::MoeHostExperts { .. } => false,
        Op::ExpertGemm { .. } => false,
        Op::PrefetchBegin => false,
        Op::PrefetchLayerBegin { .. } => false,
        Op::PrefetchReady { .. } => false,
        Op::PrefetchLayerEnd { .. } => false,
        Op::Record { .. } => false,
        Op::DumpEmbedding { .. } => false,
        Op::DumpMid { .. } => false,
        Op::DumpLayer { .. } => false,
        Op::DumpRouting { .. } => false,
        Op::DumpMoe { .. } => false,
        _ => true,
    }
}

/// An operation that a model of the given kind may issue on its caches: through the block
/// tables in paged mode, contiguously otherwise.
pub open spec fn cache_use(paged: bool) -> spec_fn(Op) -> bool {
    |op: Op|
        match op {
            Op::KvStore { .. } => !paged,
            Op::AttnBatched { .. } => !paged,
            Op::AttnPrefillF16 { .. } => !paged,
            Op::MlaStore { .. } => !paged,
            Op::MlaAttn { .. } => !paged,
            Op::KvStorePaged { .. } => paged,
            Op::AttnPaged { .. } => paged,
            Op::MlaStorePaged { .. } => paged,
            Op::MlaAttnPaged { .. } => paged,
            _ => true,
        }
}


proof fn lemma_capturable_attention(step: Step, li: usize, l: LayerDev, runs: Seq<Run>)
    requires
        step.capture_ok(),
    ensures
        all_ops(step.attention_ops(li, l, runs), |op: Op| capturable(op)),
{
    let p = |op: Op| capturable(op);
    if step.cfg.kv_lora_rank > 0 {
        assert(all_ops(step.mla_project_ops(li), p));
        assert(all_ops(step.mla_attend_ops(li), p));
        lemma_all_concat(step.mla_project_ops(li), step.mla_attend_ops(li), p);
    } else if l.has_gdn {
        assert(all_ops(step.gdn_ops(li, l), p));
    } else {
        let a = step.qkv_ops(li, l);
        let b = step.rotate_ops(li, l);
        let c = step.attend_ops(li, runs);
        let d = step.attn_out_ops(li, l);
        assert(all_ops(a, p));
        assert(all_ops(b, p));
        assert(all_ops(c, p));
        assert(all_ops(d, p));
        lemma_all_concat(a, b, p);
        lemma_all_concat(a + b, c, p);
        lemma_all_concat(a + b + c, d, p);
    }
}

proof fn lemma_capturable_second_half(step: Step, li: usize, l: LayerDev)
    requires
        step.capture_ok(),
    ensures
        all_ops(step.second_half_ops(li, l), |op: Op| capturable(op)),
{
    let p = |op: Op| capturable(op);
    let n = seq![step.layer_norm(Buf::X, li, Tensor::RmsMlp, Buf::Xn2, step.cfg.d_model as int)];
    let m = if step.is_moe(l) {
        step.moe_ops(li, l)
    } else {
        step.mlp_ops(li, l)
    };
    let e = crate::forward::opt(
        step.profiled(li),
        Op::Record { point: crate::device::ProfPoint::MlpDone(li) },
    ) + crate::forward::opt(step.prefetch, Op::PrefetchLayerEnd { layer: li });
    assert(all_ops(m, p)) by {
        if step.is_moe(l) && step.spec_topk() as i32 != 0 {
            let front = m.take(2);
            let rest = m.skip(2);
            assert(m =~= front + rest);
            assert(all_ops(front, p));
            if !step.offloaded() {
                let a = crate::forward::opt(step.prefetch, Op::PrefetchReady { layer: li });
                let b = if step.grouped() {
                    step.grouped_ops(li)
                } else {
                    step.segmented_ops(li)
                };
                let c = if l.has_shared {
                    step.shared_ops(li)
                } else {
                    Seq::empty()
                };
                let d = seq![step.add_residual(Buf::X, Buf::HAcc)];
                assert(all_ops(a, p));
                assert(all_ops(b, p));
                assert(all_ops(c, p));
                lemma_all_concat(a, b, p);
                lemma_all_concat(a + b, c, p);
                lemma_all_concat(a + b + c, d, p);
                assert(rest =~= a + b + c + d);
            }
            lemma_all_concat(front, rest, p);
        }
    }
    assert(all_ops(step.dump_ops(li, l), p));
    lemma_all_concat(n, m, p);
    lemma_all_concat(n + m, step.dump_ops(li, l), p);
    lemma_all_concat(n + m + step.dump_ops(li, l), e, p);
    assert(step.second_half_ops(li, l) =~= n + m + step.dump_ops(li, l) + e);
}

proof fn lemma_capturable_layers(step: Step, layers: Seq<LayerDev>, runs: Seq<Run>, n: nat)
    requires
        step.capture_ok(),
        n <= layers.len(),
    ensures
        all_ops(step.layers_ops(layers, runs, n), |op: Op| capturable(op)),
    decreases n,
{
    if n > 0 {
        let p = |op: Op| capturable(op);
        let li = (n - 1) as usize;
        let l = layers[n - 1];
        lemma_capturable_layers(step, layers, runs, (n - 1) as nat);
        lemma_capturable_attention(step, li, l, runs);
        lemma_capturable_second_half(step, li, l);
        let att = step.attention_ops(li, l, runs);
        let a = crate::forward::opt(
            step.profiled(li),
            Op::Record { point: crate::device::ProfPoint::LayerStart(li) },
        ) + crate::forward::opt(step.prefetch, Op::PrefetchLayerBegin { layer: li }) + seq![
            step.layer_norm(Buf::X, li, Tensor::RmsAttn, Buf::Xn, step.cfg.d_model as int),
        ];
        let b = crate::forward::opt(
            step.profiled(li),
            Op::Record { point: crate::device::ProfPoint::AttnDone(li) },
        ) + crate::forward::opt(
            step.layer_dump,
            Op::DumpMid { layer: li, rows: step.rows, d: step.spec_d() },
        );
        lemma_all_concat(a, att, p);
        lemma_all_concat(a + att, b, p);
        assert(step.first_half_ops(li, l, runs) =~= a + att + b);
        lemma_all_concat(step.first_half_ops(li, l, runs), step.second_half_ops(li, l), p);
        lemma_all_concat(
            step.layers_ops(layers, runs, (n - 1) as nat),
            step.layer_ops(li, l, runs),
            p,
        );
    }
}

/// A step that may be captured enqueues stream work only.
pub proof fn lemma_capture_is_stream_only(step: Step, layers: Seq<LayerDev>, runs: Seq<Run>)
    requires
        step.capture_ok(),
    ensures
        all_ops(step.forward_ops(layers, runs), |op: Op| capturable(op)),
{
    let p = |op: Op| capturable(op);
    let n = layers.len();
    lemma_capturable_layers(step, layers, runs, n);
    assert(all_ops(step.head_ops(), p));
    assert(all_ops(step.tail_ops(), p));
    lemma_all_concat(step.head_ops(), step.layers_ops(layers, runs, n), p);
    lemma_all_concat(
        step.head_ops() + step.layers_ops(layers, runs, n),
        step.tail_ops(),
        p,
    );
}

proof fn lemma_cache_use_mla_project(step: Step, li: usize)
    ensures
        all_ops(step.mla_project_ops(li), cache_use(step.paged)),
{
}

proof fn lemma_cache_use_mla_attend(step: Step, li: usize)
    ensures
        all_ops(step.mla_attend_ops(li), cache_use(step.paged)),
{
}

proof fn lemma_cache_use_gdn(step: Step, li: usize, l: LayerDev)
    ensures
        all_ops(step.gdn_ops(li, l), cache_use(step.paged)),
{
}

proof fn lemma_cache_use_qkv(step: Step, li: usize, l: LayerDev)
    ensures
        all_ops(step.qkv_ops(li, l), cache_use(step.paged)),
{
}

proof fn lemma_cache_use_rotate(step: Step, li: usize, l: LayerDev)
    ensures
        all_ops(step.rotate_ops(li, l), cache_use(step.paged)),
{
}

proof fn lemma_cache_use_attend(step: Step, li: usize, runs: Seq<Run>)
    ensures
        all_ops(step.attend_ops(li, runs), cache_use(step.paged)),
{
}

proof fn lemma_cache_use_attn_out(step: Step, li: usize, l: LayerDev)
    ensures
        all_ops(step.attn_out_ops(li, l), cache_use(step.paged)),
{
}

proof fn lemma_cache_use_grouped(step: Step, li: usize)
    ensures
        all_ops(step.grouped_ops(li), cache_use(step.paged)),
{
}

proof fn lemma_cache_use_segmented(step: Step, li: usize)
    ensures
        all_ops(step.segmented_ops(li), cache_use(step.paged)),
{
}

proof fn lemma_cache_use_shared(step: Step, li: usize)
    ensures
        all_ops(step.shared_ops(li), cache_use(step.paged)),
{
}

proof fn lemma_cache_use_mlp(step: Step, li: usize, l: LayerDev)
    ensures
        all_ops(step.mlp_ops(li, l), cache_use(step.paged)),
{
}

proof fn lemma_cache_use_dump(step: Step, li: usize, l: LayerDev)
    ensures
        all_ops(step.dump_ops(li, l), cache_use(step.paged)),
{
}

proof fn lemma_cache_use_attention(step: Step, li: usize, l: LayerDev, runs: Seq<Run>)
    ensures
        all_ops(step.attention_ops(li, l, runs), cache_use(step.paged)),
{
    let p = cache_use(step.paged);
    if step.cfg.kv_lora_rank > 0 {
        lemma_cache_use_mla_project(step, li);
        lemma_cache_use_mla_attend(step, li);
        lemma_all_concat(step.mla_project_ops(li), step.mla_attend_ops(li), p);
    } else if l.has_gdn {
        lemma_cache_use_gdn(step, li, l);
    } else {
        let a = step.qkv_ops(li, l);
        let b = step.rotate_ops(li, l);
        let c = step.attend_ops(li, runs);
        let d = step.attn_out_ops(li, l);
        lemma_cache_use_qkv(step, li, l);
        lemma_cache_use_rotate(step, li, l);
        lemma_cache_use_attend(step, li, runs);
        lemma_cache_use_attn_out(step, li, l);
        lemma_all_concat(a, b, p);
        lemma_all_concat(a + b, c, p);
        lemma_all_concat(a + b + c, d, p);
    }
}

proof fn lemma_cache_use_second_half(step: Step, li: usize, l: LayerDev)
    ensures
        all_ops(step.second_half_ops(li, l), cache_use(step.paged)),
{
    let p = cache_use(step.paged);
    let n = seq![step.layer_norm(Buf::X, li, Tensor::RmsMlp, Buf::Xn2, step.cfg.d_model as int)];
    let m = if step.is_moe(l) {
        step.moe_ops(li, l)
    } else {
        step.mlp_ops(li, l)
    };
    let e = crate::forward::opt(
        step.profiled(li),
        Op::Record { point: crate::device::ProfPoint::MlpDone(li) },
    ) + crate::forward::opt(step.prefetch, Op::PrefetchLayerEnd { layer: li });
    lemma_cache_use_mlp(step, li, l);
    assert(all_ops(m, p)) by {
        if step.is_moe(l) && step.spec_topk() as i32 != 0 {
            let front = m.take(2);
            let rest = m.skip(2);
            assert(m =~= front + rest);
            assert(all_ops(front, p));
            if !step.offloaded() {
                let a = crate::forward::opt(step.prefetch, Op::PrefetchReady { layer: li });
                let b = if step.grouped() {
                    step.grouped_ops(li)
                } else {
                    step.segmented_ops(li)
                };
                let c = if l.has_shared {
                    step.shared_ops(li)
                } else {
                    Seq::empty()
                };
                let d = seq![step.add_residual(Buf::X, Buf::HAcc)];
                lemma_cache_use_grouped(step, li);
                lemma_cache_use_segmented(step, li);
                lemma_cache_use_shared(step, li);
                lemma_all_concat(a, b, p);
                lemma_all_concat(a + b, c, p);
                lemma_all_concat(a + b + c, d, p);
                assert(rest =~= a + b + c + d);
            }
            lemma_all_concat(front, rest, p);
        }
    }
    lemma_cache_use_dump(step, li, l);
    lemma_all_concat(n, m, p);
    lemma_all_concat(n + m, step.dump_ops(li, l), p);
    lemma_all_concat(n + m + step.dump_ops(li, l), e, p);
    assert(step.second_half_ops(li, l) =~= n + m + step.dump_ops(li, l) + e);
}

proof fn lemma_cache_use_layers(step: Step, layers: Seq<LayerDev>, runs: Seq<Run>, n: nat)
    requires
        n <= layers.len(),
    ensures
        all_ops(step.layers_ops(layers, runs, n), cache_use(step.paged)),
    decreases n,
{
    if n > 0 {
        let p = cache_use(step.paged);
        let li = (n - 1) as usize;
        let l = layers[n - 1];
        lemma_cache_use_layers(step, layers, runs, (n - 1) as nat);
        lemma_cache_use_attention(step, li, l, runs);
        lemma_cache_use_second_half(step, li, l);
        let att = step.attention_ops(li, l, runs);
        let a = crate::forward::opt(
            step.profiled(li),
            Op::Record { point: crate::device::ProfPoint::LayerStart(li) },
        ) + crate::forward::opt(step.prefetch, Op::PrefetchLayerBegin { layer: li }) + seq![
            step.layer_norm(Buf::X, li, Tensor::RmsAttn, Buf::Xn, step.cfg.d_model as int),
        ];
        let b = crate::forward::opt(
            step.profiled(li),
            Op::Record { point: crate::device::ProfPoint::AttnDone(li) },
        ) + crate::forward::opt(
            step.layer_dump,
            Op::DumpMid { layer: li, rows: step.rows, d: step.spec_d() },
        );
        lemma_all_concat(a, att, p);
        lemma_all_concat(a + att, b, p);
        assert(step.first_half_ops(li, l, runs) =~= a + att + b);
        lemma_all_concat(step.first_half_ops(li, l, runs), step.second_half_ops(li, l), p);
        lemma_all_concat(
            step.layers_ops(layers, runs, (n - 1) as nat),
            step.layer_ops(li, l, runs),
            p,
        );
    }
}

/// A paged model reaches its caches only through the block tables, and any other model never
/// does.
pub proof fn lemma_paged_means_block_tables(step: Step, layers: Seq<LayerDev>, runs: Seq<Run>)
    ensures
        all_ops(step.forward_ops(layers, runs), cache_use(step.paged)),
{
    let p = cache_use(step.paged);
    let n = layers.len();
    lemma_cache_use_layers(step, layers, runs, n);
    assert(all_ops(step.head_ops(), p));
    assert(all_ops(step.tail_ops(), p));
    lemma_all_concat(step.head_ops(), step.layers_ops(layers, runs, n), p);
    lemma_all_concat(
        step.head_ops() + step.layers_ops(layers, runs, n),
        step.tail_ops(),
        p,
    );
}

} // verus!
