//! What uploading puts on the device.

use vstd::prelude::*;

use crate::device::DeviceCopy;
use crate::device::Tensor;
use crate::upload::layer_dev;
use crate::upload::layer_tensors;
use crate::upload::layers_uploads;
use crate::upload::model_uploads;
use crate::upload::LayerLens;
use crate::upload::ModelLens;
use crate::upload::Source;
use crate::upload::Storage;
use crate::upload::TensorLens;
use crate::upload::Upload;
use crate::upload::UploadMode;

verus! {

/// Every tensor of a layer has its own extents.
pub proof fn lemma_extents(lens: LayerLens)
    ensures
        lens.spec_get(Tensor::Wq) == lens.wq,
        lens.spec_get(Tensor::Wk) == lens.wk,
        lens.spec_get(Tensor::Wv) == lens.wv,
        lens.spec_get(Tensor::Wo) == lens.wo,
        lens.spec_get(Tensor::RmsAttn) == lens.rms_attn,
        lens.spec_get(Tensor::Wg) == lens.wg,
        lens.spec_get(Tensor::Wu) == lens.wu,
        lens.spec_get(Tensor::Wd) == lens.wd,
        lens.spec_get(Tensor::RmsMlp) == lens.rms_mlp,
        lens.spec_get(Tensor::Bq) == lens.bq,
        lens.spec_get(Tensor::Bk) == lens.bk,
        lens.spec_get(Tensor::Bv) == lens.bv,
        lens.spec_get(Tensor::QNorm) == lens.q_norm,
        lens.spec_get(Tensor::KNorm) == lens.k_norm,
        lens.spec_get(Tensor::MlaQA) == lens.mla_q_a,
        lens.spec_get(Tensor::MlaQANorm) == lens.mla_q_a_norm,
        lens.spec_get(Tensor::MlaQB) == lens.mla_q_b,
        lens.spec_get(Tensor::MlaQRope) == lens.mla_q_rope,
        lens.spec_get(Tensor::MlaKvA) == lens.mla_kv_a,
        lens.spec_get(Tensor::MlaKvANorm) == lens.mla_kv_a_norm,
        lens.spec_get(Tensor::MlaKvB) == lens.mla_kv_b,
        lens.spec_get(Tensor::MlaO) == lens.mla_o,
        lens.spec_get(Tensor::MoeRouter) == lens.moe_router,
        lens.spec_get(Tensor::MoeWg) == lens.moe_wg,
        lens.spec_get(Tensor::MoeWu) == lens.moe_wu,
        lens.spec_get(Tensor::MoeWd) == lens.moe_wd,
        lens.spec_get(Tensor::SharedWg) == lens.shared_wg,
        lens.spec_get(Tensor::SharedWu) == lens.shared_wu,
        lens.spec_get(Tensor::SharedWd) == lens.shared_wd,
        lens.spec_get(Tensor::GdnInQkv) == lens.gdn_in_qkv,
        lens.spec_get(Tensor::GdnInZ) == lens.gdn_in_z,
        lens.spec_get(Tensor::GdnInA) == lens.gdn_in_a,
        lens.spec_get(Tensor::GdnInB) == lens.gdn_in_b,
        lens.spec_get(Tensor::GdnOut) == lens.gdn_out,
        lens.spec_get(Tensor::GdnConvW) == lens.gdn_conv_w,
        lens.spec_get(Tensor::GdnALog) == lens.gdn_a_log,
        lens.spec_get(Tensor::GdnDtBias) == lens.gdn_dt_bias,
        lens.spec_get(Tensor::GdnNorm) == lens.gdn_norm,
{
}

/// The tensor is multiplied with rows, and is no routing score, gate or expert.
pub open spec fn is_projection(t: Tensor) -> bool {
    match t {
        Tensor::Wq | Tensor::Wk | Tensor::Wv | Tensor::Wo => true,
        Tensor::Wg | Tensor::Wu | Tensor::Wd => true,
        Tensor::MlaQA | Tensor::MlaQB | Tensor::MlaQRope => true,
        Tensor::MlaKvA | Tensor::MlaKvB | Tensor::MlaO => true,
        Tensor::SharedWg | Tensor::SharedWu | Tensor::SharedWd => true,
        Tensor::GdnInQkv | Tensor::GdnInZ | Tensor::GdnOut => true,
        Tensor::TokEmb | Tensor::LmHead => true,
        _ => false,
    }
}

/// The tensor is one of the expert pools.
pub open spec fn is_expert(t: Tensor) -> bool {
    t == Tensor::MoeWg || t == Tensor::MoeWu || t == Tensor::MoeWd
}

/// The tensor is read in single precision whatever the model computes in.
pub open spec fn is_vector(t: Tensor) -> bool {
    match t {
        Tensor::RmsFinal | Tensor::RmsAttn | Tensor::RmsMlp => true,
        Tensor::Bq | Tensor::Bk | Tensor::Bv | Tensor::QNorm | Tensor::KNorm => true,
        Tensor::MlaQANorm | Tensor::MlaKvANorm => true,
        Tensor::GdnConvW | Tensor::GdnALog | Tensor::GdnDtBias | Tensor::GdnNorm => true,
        _ => false,
    }
}

/// A projection that a model has lies on the device in exactly one form: packed where the
/// storage keeps it packed, else in the precision that the model computes in.
pub proof fn lemma_one_form(mode: UploadMode, t: Tensor, len: usize)
    requires
        is_projection(t),
        len > 0,
        !(mode.storage is Full) ==> mode.half,
    ensures
        ({
            let low_rank_or_shared = t == Tensor::MlaQA || t == Tensor::MlaQB || t
                == Tensor::MlaQRope || t == Tensor::MlaKvA || t == Tensor::MlaKvB || t
                == Tensor::MlaO || t == Tensor::SharedWg || t == Tensor::SharedWu || t
                == Tensor::SharedWd;
            let packed = mode.storage matches Storage::Q4 { dense_on_device: true, .. }
                && !low_rank_or_shared;
            &&& mode.has_copy(t, len, DeviceCopy::Q4) <==> packed
            &&& mode.has_copy(t, len, DeviceCopy::F16) <==> mode.half && !packed
            &&& mode.has_copy(t, len, DeviceCopy::F32) <==> !mode.half && !packed
        }),
{
}

/// Norms, biases and other vectors lie on the device in single precision only; a vector that the
/// model lacks does not.
pub proof fn lemma_vectors(mode: UploadMode, t: Tensor, len: usize)
    requires
        is_vector(t),
    ensures
        !mode.has_copy(t, len, DeviceCopy::F16),
        !mode.has_copy(t, len, DeviceCopy::Q4),
        len > 0 ==> mode.has_copy(t, len, DeviceCopy::F32),
{
}

/// Experts lie on the device packed where the storage keeps them packed, in half precision where
/// the model computes in it or the storage is packed on the host, and else in single precision;
/// plain experts only if all of them fit.
pub proof fn lemma_experts(mode: UploadMode, t: Tensor, len: usize)
    requires
        is_expert(t),
        len > 0,
        !(mode.storage is Full) ==> mode.half,
    ensures
        ({
            let packed = mode.storage matches Storage::Q4 { experts_on_device: true, .. };
            let fits = mode.storage is Full ==> mode.resident;
            &&& mode.has_copy(t, len, DeviceCopy::Q4) <==> packed
            &&& mode.has_copy(t, len, DeviceCopy::F16) <==> mode.half && !packed && fits
            &&& mode.has_copy(t, len, DeviceCopy::F32) <==> mode.storage is Full && fits
        }),
{
}

/// Routing weights and gates are never packed: they lie on the device in the precision that the
/// model computes in.
pub proof fn lemma_unpacked(mode: UploadMode, t: Tensor, len: usize)
    requires
        t == Tensor::MoeRouter || t == Tensor::GdnInA || t == Tensor::GdnInB,
        len > 0,
        !(mode.storage is Full) ==> mode.half,
    ensures
        !mode.has_copy(t, len, DeviceCopy::Q4),
        mode.has_copy(t, len, DeviceCopy::F16) <==> mode.half,
        !mode.half ==> mode.has_copy(t, len, DeviceCopy::F32),
        mode.source_of(t, DeviceCopy::F16) == Source::ToHalf,
{
}

/// A copy is as large as its numbers: four bytes each in single precision, two in half, and the
/// packed bytes with four bytes for each scale. It is filled with what the host holds: rounded
/// where the host holds single precision, expanded where it holds a quantized tensor.
pub proof fn lemma_copy(
    mode: UploadMode,
    layer: Option<usize>,
    t: Tensor,
    lens: TensorLens,
    copy: DeviceCopy,
)
    requires
        lens.len * 4 <= usize::MAX,
        lens.scales * 4 <= usize::MAX,
    ensures
        ({
            let u = mode.upload_of(layer, t, lens, copy);
            &&& (u.weight.layer, u.weight.tensor, u.weight.copy) == (layer, t, copy)
            &&& match copy {
                DeviceCopy::F32 => u.bytes == lens.len * 4 && u.scale_bytes == 0 && u.source
                    == Source::AsIs,
                DeviceCopy::F16 => u.bytes == lens.len * 2 && u.scale_bytes == 0 && (
                mode.storage is Full ==> u.source == Source::ToHalf) && (!(mode.storage is Full)
                    && (is_projection(t) || is_expert(t)) ==> u.source == Source::Dequantize),
                DeviceCopy::Q4 => u.bytes == lens.packed && u.scale_bytes == lens.scales * 4
                    && u.source == Source::Packed,
            }
        }),
{
}

/// What dispatch knows of a layer is what the layer has: a tensor is there if it has elements, and
/// is read packed exactly if it lies packed on the device.
pub proof fn lemma_layer_known(mode: UploadMode, lens: LayerLens)
    ensures
        ({
            let l = layer_dev(mode, lens);
            let packed = |t: Tensor, n: usize| mode.has_copy(t, n, DeviceCopy::Q4);
            &&& l.has_bq == (lens.bq.len > 0) && l.has_bk == (lens.bk.len > 0)
            &&& l.has_bv == (lens.bv.len > 0) && l.has_q_norm == (lens.q_norm.len > 0)
            &&& l.has_router == (lens.moe_router.len > 0)
            &&& l.has_shared == (lens.shared_wg.len > 0)
            &&& l.has_gdn == (lens.gdn_in_qkv.len > 0)
            &&& l.q4_wq == packed(Tensor::Wq, lens.wq.len)
            &&& l.q4_wk == packed(Tensor::Wk, lens.wk.len)
            &&& l.q4_wv == packed(Tensor::Wv, lens.wv.len)
            &&& l.q4_wo == packed(Tensor::Wo, lens.wo.len)
            &&& l.q4_wg == packed(Tensor::Wg, lens.wg.len)
            &&& l.q4_wu == packed(Tensor::Wu, lens.wu.len)
            &&& l.q4_wd == packed(Tensor::Wd, lens.wd.len)
            &&& l.q4_gdn_in_qkv == packed(Tensor::GdnInQkv, lens.gdn_in_qkv.len)
            &&& l.q4_gdn_in_z == packed(Tensor::GdnInZ, lens.gdn_in_z.len)
            &&& l.q4_gdn_out == packed(Tensor::GdnOut, lens.gdn_out.len)
        }),
{
}

/// The upload is a copy of a tensor of layer `layer` that the mode wants there.
pub open spec fn wanted(mode: UploadMode, layer: usize, lens: LayerLens, u: Upload) -> bool {
    let t = u.weight.tensor;
    &&& u.weight.layer == Some(layer)
    &&& mode.has_copy(t, lens.spec_get(t).len, u.weight.copy)
    &&& u == mode.upload_of(Some(layer), t, lens.spec_get(t), u.weight.copy)
}

proof fn lemma_copies(mode: UploadMode, layer: usize, lens: LayerLens, copy: DeviceCopy, n: nat)
    requires
        n <= layer_tensors().len(),
    ensures
        ({
            let ups = mode.layer_copies(layer, lens, copy, n);
            &&& forall|i: int|
                0 <= i < ups.len() ==> wanted(mode, layer, lens, #[trigger] ups[i])
                    && ups[i].weight.copy == copy
            &&& forall|i: int|
                0 <= i < ups.len() ==> tensors_below(n, (#[trigger] ups[i]).weight.tensor)
            &&& forall|i: int, j: int|
                0 <= i < j < ups.len() ==> (#[trigger] ups[i]).weight != (#[trigger] ups[j]).weight
        }),
    decreases n,
{
    if n > 0 {
        lemma_copies(mode, layer, lens, copy, (n - 1) as nat);
        let before = mode.layer_copies(layer, lens, copy, (n - 1) as nat);
        let ups = mode.layer_copies(layer, lens, copy, n);
        let t = layer_tensors()[n - 1];
        assert forall|i: int| 0 <= i < ups.len() implies tensors_below(
            n,
            (#[trigger] ups[i]).weight.tensor,
        ) by {
            if i < before.len() {
                assert(ups[i] == before[i]);
                assert(tensors_below((n - 1) as nat, before[i].weight.tensor));
            } else {
                assert(layer_tensors()[n - 1] == ups[i].weight.tensor);
            }
        }
        assert forall|i: int, j: int| 0 <= i < j < ups.len() implies (#[trigger] ups[i]).weight != (
        #[trigger] ups[j]).weight by {
            assert(ups[i] == before[i]);
            if j < before.len() {
                assert(ups[j] == before[j]);
            } else {
                assert(tensors_below((n - 1) as nat, before[i].weight.tensor));
                lemma_tensors_distinct();
            }
        }
    }
}

/// The tensor is among the first `n` of a layer.
pub open spec fn tensors_below(n: nat, t: Tensor) -> bool {
    exists|k: int| 0 <= k < n && #[trigger] layer_tensors()[k] == t
}

proof fn lemma_tensors_distinct()
    ensures
        forall|i: int, j: int|
            0 <= i < j < layer_tensors().len() ==> #[trigger] layer_tensors()[i]
                != #[trigger] layer_tensors()[j],
{
}

/// A layer uploads only copies of its own tensors that the mode wants, and none of them twice.
pub proof fn lemma_layer_uploads(mode: UploadMode, layer: usize, lens: LayerLens)
    ensures
        ({
            let ups = mode.layer_uploads(layer, lens);
            &&& forall|i: int|
                0 <= i < ups.len() ==> wanted(mode, layer, lens, #[trigger] ups[i])
            &&& forall|i: int, j: int|
                0 <= i < j < ups.len() ==> (#[trigger] ups[i]).weight != (#[trigger] ups[j]).weight
        }),
{
    let n = layer_tensors().len();
    lemma_copies(mode, layer, lens, DeviceCopy::F32, n);
    lemma_copies(mode, layer, lens, DeviceCopy::F16, n);
    lemma_copies(mode, layer, lens, DeviceCopy::Q4, n);
    let a = mode.layer_copies(layer, lens, DeviceCopy::F32, n);
    let b = mode.layer_copies(layer, lens, DeviceCopy::F16, n);
    let c = mode.layer_copies(layer, lens, DeviceCopy::Q4, n);
    let ups = mode.layer_uploads(layer, lens);
    assert forall|i: int| 0 <= i < ups.len() implies wanted(mode, layer, lens, #[trigger] ups[i])
        && ups[i].weight.copy == if i < a.len() {
        DeviceCopy::F32
    } else if i < a.len() + b.len() {
        DeviceCopy::F16
    } else {
        DeviceCopy::Q4
    } by {
        if i < a.len() {
            assert(ups[i] == a[i]);
        } else if i < a.len() + b.len() {
            assert(ups[i] == b[i - a.len()]);
        } else {
            assert(ups[i] == c[i - a.len() - b.len()]);
        }
    }
    assert forall|i: int, j: int| 0 <= i < j < ups.len() implies (#[trigger] ups[i]).weight != (
    #[trigger] ups[j]).weight by {
        if j < a.len() {
            assert(ups[i] == a[i] && ups[j] == a[j]);
        } else if a.len() <= i && j < a.len() + b.len() {
            assert(ups[i] == b[i - a.len()] && ups[j] == b[j - a.len()]);
        } else if a.len() + b.len() <= i {
            assert(ups[i] == c[i - a.len() - b.len()] && ups[j] == c[j - a.len() - b.len()]);
        }
    }
}

proof fn lemma_layers_uploads(mode: UploadMode, layers: Seq<LayerLens>, n: nat)
    requires
        n <= layers.len() <= usize::MAX,
    ensures
        ({
            let ups = layers_uploads(mode, layers, n);
            &&& forall|i: int|
                0 <= i < ups.len() ==> (#[trigger] ups[i]).weight.layer is Some
                    && ups[i].weight.layer->0 < n && wanted(
                    mode,
                    ups[i].weight.layer->0,
                    layers[ups[i].weight.layer->0 as int],
                    ups[i],
                )
            &&& forall|i: int, j: int|
                0 <= i < j < ups.len() ==> (#[trigger] ups[i]).weight != (#[trigger] ups[j]).weight
        }),
    decreases n,
{
    if n > 0 {
        let m = (n - 1) as nat;
        lemma_layers_uploads(mode, layers, m);
        lemma_layer_uploads(mode, m as usize, layers[m as int]);
        let a = layers_uploads(mode, layers, m);
        let b = mode.layer_uploads(m as usize, layers[m as int]);
        let ups = layers_uploads(mode, layers, n);
        assert forall|i: int| 0 <= i < ups.len() implies (#[trigger] ups[i]).weight.layer is Some
            && ups[i].weight.layer->0 < n && wanted(
            mode,
            ups[i].weight.layer->0,
            layers[ups[i].weight.layer->0 as int],
            ups[i],
        ) && (i < a.len() <==> ups[i].weight.layer->0 < m) by {
            if i < a.len() {
                assert(ups[i] == a[i]);
            } else {
                assert(ups[i] == b[i - a.len()]);
            }
        }
        assert forall|i: int, j: int| 0 <= i < j < ups.len() implies (#[trigger] ups[i]).weight != (
        #[trigger] ups[j]).weight by {
            if j < a.len() {
                assert(ups[i] == a[i] && ups[j] == a[j]);
            } else if i >= a.len() {
                assert(ups[i] == b[i - a.len()] && ups[j] == b[j - a.len()]);
            }
        }
    }
}

/// A model never uploads the same copy of the same tensor twice, and every upload of a layer is a
/// copy of that layer's tensor that the mode wants.
pub proof fn lemma_uploads(mode: UploadMode, model: ModelLens)
    requires
        model.layers.len() <= usize::MAX,
    ensures
        ({
            let ups = model_uploads(mode, model);
            &&& forall|i: int|
                0 <= i < ups.len() && (#[trigger] ups[i]).weight.layer is Some ==> {
                    let li = ups[i].weight.layer->0;
                    li < model.layers.len() && wanted(mode, li, model.layers[li as int], ups[i])
                }
            &&& forall|i: int, j: int|
                0 <= i < j < ups.len() ==> (#[trigger] ups[i]).weight != (#[trigger] ups[j]).weight
        }),
{
    let a = mode.table_uploads(Tensor::TokEmb, model.tok_emb);
    let b = mode.table_uploads(Tensor::LmHead, model.lm_head);
    let c = mode.table_uploads(Tensor::RmsFinal, model.rms_final);
    let d = layers_uploads(mode, model.layers@, model.layers@.len());
    lemma_layers_uploads(mode, model.layers@, model.layers@.len());
    lemma_table_uploads(mode, Tensor::TokEmb, model.tok_emb);
    lemma_table_uploads(mode, Tensor::LmHead, model.lm_head);
    lemma_table_uploads(mode, Tensor::RmsFinal, model.rms_final);
    lemma_join_distinct(a, b);
    lemma_join_distinct(a + b, c);
    lemma_join_distinct(a + b + c, d);
    let ups = model_uploads(mode, model);
    assert forall|i: int| 0 <= i < ups.len() && (#[trigger] ups[i]).weight.layer is Some implies {
        let li = ups[i].weight.layer->0;
        li < model.layers.len() && wanted(mode, li, model.layers[li as int], ups[i])
    } by {
        let n = a.len() + b.len() + c.len();
        if i < n {
            assert(ups[i] == (a + b + c)[i]);
        } else {
            assert(ups[i] == d[i - n]);
        }
    }
}

proof fn lemma_table_uploads(mode: UploadMode, t: Tensor, lens: TensorLens)
    ensures
        ({
            let ups = mode.table_uploads(t, lens);
            &&& forall|i: int|
                0 <= i < ups.len() ==> (#[trigger] ups[i]).weight.layer is None
                    && ups[i].weight.tensor == t
            &&& forall|i: int, j: int|
                0 <= i < j < ups.len() ==> (#[trigger] ups[i]).weight != (#[trigger] ups[j]).weight
        }),
{
}

proof fn lemma_join_distinct(a: Seq<Upload>, b: Seq<Upload>)
    requires
        forall|i: int, j: int|
            0 <= i < j < a.len() ==> (#[trigger] a[i]).weight != (#[trigger] a[j]).weight,
        forall|i: int, j: int|
            0 <= i < j < b.len() ==> (#[trigger] b[i]).weight != (#[trigger] b[j]).weight,
        forall|i: int, j: int|
            0 <= i < a.len() && 0 <= j < b.len() ==> (#[trigger] a[i]).weight != (
            #[trigger] b[j]).weight,
    ensures
        forall|i: int, j: int|
            0 <= i < j < (a + b).len() ==> (#[trigger] (a + b)[i]).weight != (
            #[trigger] (a + b)[j]).weight,
{
    assert forall|i: int, j: int| 0 <= i < j < (a + b).len() implies (
    #[trigger] (a + b)[i]).weight != (#[trigger] (a + b)[j]).weight by {
        if j < a.len() {
            assert((a + b)[i] == a[i] && (a + b)[j] == a[j]);
        } else if i >= a.len() {
            assert((a + b)[i] == b[i - a.len()] && (a + b)[j] == b[j - a.len()]);
        } else {
            assert((a + b)[i] == a[i] && (a + b)[j] == b[j - a.len()]);
        }
    }
}

} // verus!
