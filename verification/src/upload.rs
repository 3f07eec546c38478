//! Which copies of which weights go to the device.

use vstd::prelude::*;

use crate::device::DeviceCopy;
use crate::device::Tensor;
use crate::device::Weight;
use crate::forward::LayerDev;

verus! {

/// Extent of one host tensor. The packed parts are those of int4 storage.
#[derive(Debug, Clone, Copy, PartialEq, Eq, Structural)]
pub struct TensorLens {
    /// Elements; 0 when the tensor is absent.
    pub len: usize,
    /// Packed bytes.
    pub packed: usize,
    /// Group scales.
    pub scales: usize,
}

/// Extents of one layer's tensors.
#[derive(Debug, Clone, Copy, PartialEq, Eq, Structural)]
pub struct LayerLens {
    pub wq: TensorLens,
    pub wk: TensorLens,
    pub wv: TensorLens,
    pub wo: TensorLens,
    pub rms_attn: TensorLens,
    pub wg: TensorLens,
    pub wu: TensorLens,
    pub wd: TensorLens,
    pub rms_mlp: TensorLens,
    pub bq: TensorLens,
    pub bk: TensorLens,
    pub bv: TensorLens,
    pub q_norm: TensorLens,
    pub k_norm: TensorLens,
    pub mla_q_a: TensorLens,
    pub mla_q_a_norm: TensorLens,
    pub mla_q_b: TensorLens,
    pub mla_q_rope: TensorLens,
    pub mla_kv_a: TensorLens,
    pub mla_kv_a_norm: TensorLens,
    pub mla_kv_b: TensorLens,
    pub mla_o: TensorLens,
    pub moe_router: TensorLens,
    pub moe_wg: TensorLens,
    pub moe_wu: TensorLens,
    pub moe_wd: TensorLens,
    pub shared_wg: TensorLens,
    pub shared_wu: TensorLens,
    pub shared_wd: TensorLens,
    pub gdn_in_qkv: TensorLens,
    pub gdn_in_z: TensorLens,
    pub gdn_in_a: TensorLens,
    pub gdn_in_b: TensorLens,
    pub gdn_out: TensorLens,
    pub gdn_conv_w: TensorLens,
    pub gdn_a_log: TensorLens,
    pub gdn_dt_bias: TensorLens,
    pub gdn_norm: TensorLens,
}

/// How the host holds the weights.
#[derive(Debug, Clone, Copy, PartialEq, Eq, Structural)]
pub enum Storage {
    /// Plain single-precision tensors.
    Full,
    /// Packed int4 tensors, kept packed on the device for the experts or for every large
    /// dense tensor as asked.
    Q4 { experts_on_device: bool, dense_on_device: bool },
    /// E4M3 tensors.
    Fp8,
}

/// What decides the copies of a tensor.
#[derive(Debug, Clone, Copy, PartialEq, Eq, Structural)]
pub enum Class {
    /// Embedding table and output head.
    Table,
    /// Norm weights that every layer has.
    Norm,
    /// Small optional vectors: biases, per-head norms, conv taps.
    Vector,
    /// Attention and MLP projections.
    Dense,
    /// Low-rank attention projections.
    Mla,
    Router,
    Expert,
    Shared,
    /// Linear-attention projections that are quantized.
    GdnGemm,
    /// Linear-attention gates, never quantized.
    GdnGate,
}

/// How a device copy is made from the host tensor.
#[derive(Debug, Clone, Copy, PartialEq, Eq, Structural)]
pub enum Source {
    AsIs,
    /// Single precision rounded to half.
    ToHalf,
    /// Packed storage expanded to half.
    Dequantize,
    /// Packed bytes and scales as they are.
    Packed,
}

/// One device allocation and what fills it.
#[derive(Debug, Clone, Copy, PartialEq, Eq, Structural)]
pub struct Upload {
    pub weight: Weight,
    pub source: Source,
    pub bytes: usize,
    /// Bytes of the group scales that accompany packed bytes.
    pub scale_bytes: usize,
}

/// What decides the copies, apart from the tensor.
#[derive(Debug, Clone, Copy, PartialEq, Eq, Structural)]
pub struct UploadMode {
    pub storage: Storage,
    /// The model computes in half precision.
    pub half: bool,
    /// All experts fit the device.
    pub resident: bool,
}

pub open spec fn class_of(t: Tensor) -> Class {
    match t {
        Tensor::TokEmb => Class::Table,
        Tensor::RmsFinal => Class::Norm,
        Tensor::LmHead => Class::Table,
        Tensor::Wq => Class::Dense,
        Tensor::Wk => Class::Dense,
        Tensor::Wv => Class::Dense,
        Tensor::Wo => Class::Dense,
        Tensor::RmsAttn => Class::Norm,
        Tensor::Wg => Class::Dense,
        Tensor::Wu => Class::Dense,
        Tensor::Wd => Class::Dense,
        Tensor::RmsMlp => Class::Norm,
        Tensor::Bq => Class::Vector,
        Tensor::Bk => Class::Vector,
        Tensor::Bv => Class::Vector,
        Tensor::QNorm => Class::Vector,
        Tensor::KNorm => Class::Vector,
        Tensor::MlaQA => Class::Mla,
        Tensor::MlaQANorm => Class::Vector,
        Tensor::MlaQB => Class::Mla,
        Tensor::MlaQRope => Class::Mla,
        Tensor::MlaKvA => Class::Mla,
        Tensor::MlaKvANorm => Class::Vector,
        Tensor::MlaKvB => Class::Mla,
        Tensor::MlaO => Class::Mla,
        Tensor::MoeRouter => Class::Router,
        Tensor::MoeWg => Class::Expert,
        Tensor::MoeWu => Class::Expert,
        Tensor::MoeWd => Class::Expert,
        Tensor::SharedWg => Class::Shared,
        Tensor::SharedWu => Class::Shared,
        Tensor::SharedWd => Class::Shared,
        Tensor::GdnInQkv => Class::GdnGemm,
        Tensor::GdnInZ => Class::GdnGemm,
        Tensor::GdnInA => Class::GdnGate,
        Tensor::GdnInB => Class::GdnGate,
        Tensor::GdnOut => Class::GdnGemm,
        Tensor::GdnConvW => Class::Vector,
        Tensor::GdnALog => Class::Vector,
        Tensor::GdnDtBias => Class::Vector,
        Tensor::GdnNorm => Class::Vector,
    }
}

/// The tensors of a layer.
pub open spec fn layer_tensors() -> Seq<Tensor> {
    seq![
        Tensor::Wq,
        Tensor::Wk,
        Tensor::Wv,
        Tensor::Wo,
        Tensor::RmsAttn,
        Tensor::Wg,
        Tensor::Wu,
        Tensor::Wd,
        Tensor::RmsMlp,
        Tensor::Bq,
        Tensor::Bk,
        Tensor::Bv,
        Tensor::QNorm,
        Tensor::KNorm,
        Tensor::MlaQA,
        Tensor::MlaQANorm,
        Tensor::MlaQB,
        Tensor::MlaQRope,
        Tensor::MlaKvA,
        Tensor::MlaKvANorm,
        Tensor::MlaKvB,
        Tensor::MlaO,
        Tensor::MoeRouter,
        Tensor::MoeWg,
        Tensor::MoeWu,
        Tensor::MoeWd,
        Tensor::SharedWg,
        Tensor::SharedWu,
        Tensor::SharedWd,
        Tensor::GdnInQkv,
        Tensor::GdnInZ,
        Tensor::GdnInA,
        Tensor::GdnInB,
        Tensor::GdnOut,
        Tensor::GdnConvW,
        Tensor::GdnALog,
        Tensor::GdnDtBias,
        Tensor::GdnNorm,
    ]
}

impl LayerLens {
    pub open spec fn spec_get(self, t: Tensor) -> TensorLens {
        match t {
            Tensor::Wq => self.wq,
            Tensor::Wk => self.wk,
            Tensor::Wv => self.wv,
            Tensor::Wo => self.wo,
            Tensor::RmsAttn => self.rms_attn,
            Tensor::Wg => self.wg,
            Tensor::Wu => self.wu,
            Tensor::Wd => self.wd,
            Tensor::RmsMlp => self.rms_mlp,
            Tensor::Bq => self.bq,
            Tensor::Bk => self.bk,
            Tensor::Bv => self.bv,
            Tensor::QNorm => self.q_norm,
            Tensor::KNorm => self.k_norm,
            Tensor::MlaQA => self.mla_q_a,
            Tensor::MlaQANorm => self.mla_q_a_norm,
            Tensor::MlaQB => self.mla_q_b,
            Tensor::MlaQRope => self.mla_q_rope,
            Tensor::MlaKvA => self.mla_kv_a,
            Tensor::MlaKvANorm => self.mla_kv_a_norm,
            Tensor::MlaKvB => self.mla_kv_b,
            Tensor::MlaO => self.mla_o,
            Tensor::MoeRouter => self.moe_router,
            Tensor::MoeWg => self.moe_wg,
            Tensor::MoeWu => self.moe_wu,
            Tensor::MoeWd => self.moe_wd,
            Tensor::SharedWg => self.shared_wg,
            Tensor::SharedWu => self.shared_wu,
            Tensor::SharedWd => self.shared_wd,
            Tensor::GdnInQkv => self.gdn_in_qkv,
            Tensor::GdnInZ => self.gdn_in_z,
            Tensor::GdnInA => self.gdn_in_a,
            Tensor::GdnInB => self.gdn_in_b,
            Tensor::GdnOut => self.gdn_out,
            Tensor::GdnConvW => self.gdn_conv_w,
            Tensor::GdnALog => self.gdn_a_log,
            Tensor::GdnDtBias => self.gdn_dt_bias,
            Tensor::GdnNorm => self.gdn_norm,
            _ => TensorLens { len: 0, packed: 0, scales: 0 },
        }
    }

    /// Extent of one tensor.
    pub fn get(&self, t: Tensor) -> (lens: TensorLens)
        ensures
            lens == self.spec_get(t),
    {
        match t {
            Tensor::Wq => self.wq,
            Tensor::Wk => self.wk,
            Tensor::Wv => self.wv,
            Tensor::Wo => self.wo,
            Tensor::RmsAttn => self.rms_attn,
            Tensor::Wg => self.wg,
            Tensor::Wu => self.wu,
            Tensor::Wd => self.wd,
            Tensor::RmsMlp => self.rms_mlp,
            Tensor::Bq => self.bq,
            Tensor::Bk => self.bk,
            Tensor::Bv => self.bv,
            Tensor::QNorm => self.q_norm,
            Tensor::KNorm => self.k_norm,
            Tensor::MlaQA => self.mla_q_a,
            Tensor::MlaQANorm => self.mla_q_a_norm,
            Tensor::MlaQB => self.mla_q_b,
            Tensor::MlaQRope => self.mla_q_rope,
            Tensor::MlaKvA => self.mla_kv_a,
            Tensor::MlaKvANorm => self.mla_kv_a_norm,
            Tensor::MlaKvB => self.mla_kv_b,
            Tensor::MlaO => self.mla_o,
            Tensor::MoeRouter => self.moe_router,
            Tensor::MoeWg => self.moe_wg,
            Tensor::MoeWu => self.moe_wu,
            Tensor::MoeWd => self.moe_wd,
            Tensor::SharedWg => self.shared_wg,
            Tensor::SharedWu => self.shared_wu,
            Tensor::SharedWd => self.shared_wd,
            Tensor::GdnInQkv => self.gdn_in_qkv,
            Tensor::GdnInZ => self.gdn_in_z,
            Tensor::GdnInA => self.gdn_in_a,
            Tensor::GdnInB => self.gdn_in_b,
            Tensor::GdnOut => self.gdn_out,
            Tensor::GdnConvW => self.gdn_conv_w,
            Tensor::GdnALog => self.gdn_a_log,
            Tensor::GdnDtBias => self.gdn_dt_bias,
            Tensor::GdnNorm => self.gdn_norm,
            _ => TensorLens { len: 0, packed: 0, scales: 0 },
        }
    }
}

fn classify(t: Tensor) -> (class: Class)
    ensures
        class == class_of(t),
{
    match t {
        Tensor::TokEmb => Class::Table,
        Tensor::RmsFinal => Class::Norm,
        Tensor::LmHead => Class::Table,
        Tensor::Wq => Class::Dense,
        Tensor::Wk => Class::Dense,
        Tensor::Wv => Class::Dense,
        Tensor::Wo => Class::Dense,
        Tensor::RmsAttn => Class::Norm,
        Tensor::Wg => Class::Dense,
        Tensor::Wu => Class::Dense,
        Tensor::Wd => Class::Dense,
        Tensor::RmsMlp => Class::Norm,
        Tensor::Bq => Class::Vector,
        Tensor::Bk => Class::Vector,
        Tensor::Bv => Class::Vector,
        Tensor::QNorm => Class::Vector,
        Tensor::KNorm => Class::Vector,
        Tensor::MlaQA => Class::Mla,
        Tensor::MlaQANorm => Class::Vector,
        Tensor::MlaQB => Class::Mla,
        Tensor::MlaQRope => Class::Mla,
        Tensor::MlaKvA => Class::Mla,
        Tensor::MlaKvANorm => Class::Vector,
        Tensor::MlaKvB => Class::Mla,
        Tensor::MlaO => Class::Mla,
        Tensor::MoeRouter => Class::Router,
        Tensor::MoeWg => Class::Expert,
        Tensor::MoeWu => Class::Expert,
        Tensor::MoeWd => Class::Expert,
        Tensor::SharedWg => Class::Shared,
        Tensor::SharedWu => Class::Shared,
        Tensor::SharedWd => Class::Shared,
        Tensor::GdnInQkv => Class::GdnGemm,
        Tensor::GdnInZ => Class::GdnGemm,
        Tensor::GdnInA => Class::GdnGate,
        Tensor::GdnInB => Class::GdnGate,
        Tensor::GdnOut => Class::GdnGemm,
        Tensor::GdnConvW => Class::Vector,
        Tensor::GdnALog => Class::Vector,
        Tensor::GdnDtBias => Class::Vector,
        Tensor::GdnNorm => Class::Vector,
    }
}

fn layer_tensor_list() -> (list: Vec<Tensor>)
    ensures
        list@ == layer_tensors(),
{
    let list = vec![
        Tensor::Wq,
        Tensor::Wk,
        Tensor::Wv,
        Tensor::Wo,
        Tensor::RmsAttn,
        Tensor::Wg,
        Tensor::Wu,
        Tensor::Wd,
        Tensor::RmsMlp,
        Tensor::Bq,
        Tensor::Bk,
        Tensor::Bv,
        Tensor::QNorm,
        Tensor::KNorm,
        Tensor::MlaQA,
        Tensor::MlaQANorm,
        Tensor::MlaQB,
        Tensor::MlaQRope,
        Tensor::MlaKvA,
        Tensor::MlaKvANorm,
        Tensor::MlaKvB,
        Tensor::MlaO,
        Tensor::MoeRouter,
        Tensor::MoeWg,
        Tensor::MoeWu,
        Tensor::MoeWd,
        Tensor::SharedWg,
        Tensor::SharedWu,
        Tensor::SharedWd,
        Tensor::GdnInQkv,
        Tensor::GdnInZ,
        Tensor::GdnInA,
        Tensor::GdnInB,
        Tensor::GdnOut,
        Tensor::GdnConvW,
        Tensor::GdnALog,
        Tensor::GdnDtBias,
        Tensor::GdnNorm,
    ];
    assert(list@ =~= layer_tensors());
    list
}

impl UploadMode {
    /// Packed storage keeps the experts packed on the device.
    pub open spec fn packed_experts(self) -> bool {
        self.storage matches Storage::Q4 { experts_on_device, .. } && experts_on_device
    }

    /// Packed storage keeps every large dense tensor packed on the device.
    pub open spec fn packed_dense(self) -> bool {
        self.storage matches Storage::Q4 { dense_on_device, .. } && dense_on_device
    }

    /// The model runs half-precision GEMMs; packed storages always do.
    pub open spec fn half_gemms(self) -> bool {
        self.half || !(self.storage is Full)
    }

    /// A single-precision copy goes to the device.
    pub open spec fn full_copy(self, t: Tensor, len: usize) -> bool {
        match class_of(t) {
            Class::Norm => true,
            Class::Vector => len > 0,
            Class::Router => len > 0,
            Class::Expert => self.storage is Full && self.resident && len > 0,
            _ => self.storage is Full && !self.half && len > 0,
        }
    }

    /// A half-precision copy goes to the device.
    pub open spec fn half_copy(self, t: Tensor, len: usize) -> bool {
        self.half_gemms() && match class_of(t) {
            Class::Norm => false,
            Class::Vector => false,
            Class::Table => !self.packed_dense(),
            Class::Dense => !self.packed_dense(),
            Class::Mla => true,
            Class::Router => true,
            Class::Shared => true,
            Class::Expert => match self.storage {
                Storage::Full => self.resident,
                Storage::Q4 { experts_on_device, .. } => !experts_on_device,
                Storage::Fp8 => true,
            },
            Class::GdnGemm => !self.packed_dense() && len > 0,
            Class::GdnGate => len > 0,
        }
    }

    /// The packed form goes to the device.
    pub open spec fn packed_copy(self, t: Tensor, len: usize) -> bool {
        match class_of(t) {
            Class::Table => self.packed_dense(),
            Class::Dense => self.packed_dense() && len > 0,
            Class::GdnGemm => self.packed_dense() && len > 0,
            Class::Expert => self.packed_experts(),
            _ => false,
        }
    }

    pub open spec fn has_copy(self, t: Tensor, len: usize, copy: DeviceCopy) -> bool {
        match copy {
            DeviceCopy::F32 => self.full_copy(t, len),
            DeviceCopy::F16 => self.half_copy(t, len),
            DeviceCopy::Q4 => self.packed_copy(t, len),
        }
    }

    /// How a copy is made. Tensors that packed storage leaves unpacked are rounded to half.
    pub open spec fn source_of(self, t: Tensor, copy: DeviceCopy) -> Source {
        match copy {
            DeviceCopy::F32 => Source::AsIs,
            DeviceCopy::Q4 => Source::Packed,
            DeviceCopy::F16 => if self.storage is Full || class_of(t) == Class::Router || class_of(
                t,
            ) == Class::GdnGate {
                Source::ToHalf
            } else {
                Source::Dequantize
            },
        }
    }

    /// One copy of one tensor.
    pub open spec fn upload_of(
        self,
        layer: Option<usize>,
        t: Tensor,
        lens: TensorLens,
        copy: DeviceCopy,
    ) -> Upload {
        Upload {
            weight: Weight { layer, tensor: t, copy },
            source: self.source_of(t, copy),
            bytes: match copy {
                DeviceCopy::F32 => (lens.len * 4) as usize,
                DeviceCopy::F16 => (lens.len * 2) as usize,
                DeviceCopy::Q4 => lens.packed,
            },
            scale_bytes: match copy {
                DeviceCopy::Q4 => (lens.scales * 4) as usize,
                _ => 0,
            },
        }
    }

    /// The copies of one form among the first `n` tensors of a layer.
    pub open spec fn layer_copies(
        self,
        layer: usize,
        lens: LayerLens,
        copy: DeviceCopy,
        n: nat,
    ) -> Seq<Upload>
        decreases n,
    {
        if n == 0 {
            Seq::empty()
        } else {
            let t = layer_tensors()[n - 1];
            let rest = self.layer_copies(layer, lens, copy, (n - 1) as nat);
            if self.has_copy(t, lens.spec_get(t).len, copy) {
                rest.push(self.upload_of(Some(layer), t, lens.spec_get(t), copy))
            } else {
                rest
            }
        }
    }

    /// Everything one layer uploads: the single-precision copies, then the half ones, then
    /// the packed ones.
    pub open spec fn layer_uploads(self, layer: usize, lens: LayerLens) -> Seq<Upload> {
        let n = layer_tensors().len();
        self.layer_copies(layer, lens, DeviceCopy::F32, n) + self.layer_copies(
            layer,
            lens,
            DeviceCopy::F16,
            n,
        ) + self.layer_copies(layer, lens, DeviceCopy::Q4, n)
    }

    /// The copies of one model-wide tensor.
    pub open spec fn table_uploads(self, t: Tensor, lens: TensorLens) -> Seq<Upload> {
        let one = |copy: DeviceCopy|
            if self.has_copy(t, lens.len, copy) {
                seq![self.upload_of(None, t, lens, copy)]
            } else {
                Seq::<Upload>::empty()
            };
        one(DeviceCopy::F32) + one(DeviceCopy::F16) + one(DeviceCopy::Q4)
    }
}

/// Byte counts of a host tensor are machine words.
pub open spec fn lens_fit(lens: TensorLens) -> bool {
    lens.len * 4 <= usize::MAX && lens.scales * 4 <= usize::MAX
}

pub open spec fn layer_fits(lens: LayerLens) -> bool {
    forall|t: Tensor| lens_fit(#[trigger] lens.spec_get(t))
}

/// Extents of all host tensors.
#[derive(Debug, Clone, PartialEq, Eq)]
pub struct ModelLens {
    pub tok_emb: TensorLens,
    pub rms_final: TensorLens,
    pub lm_head: TensorLens,
    pub layers: Vec<LayerLens>,
}

impl ModelLens {
    pub open spec fn fits(&self) -> bool {
        &&& lens_fit(self.tok_emb)
        &&& lens_fit(self.rms_final)
        &&& lens_fit(self.lm_head)
        &&& forall|i: int| 0 <= i < self.layers.len() ==> layer_fits(#[trigger] self.layers[i])
    }
}

/// The uploads of the first `n` layers.
pub open spec fn layers_uploads(mode: UploadMode, layers: Seq<LayerLens>, n: nat) -> Seq<Upload>
    decreases n,
{
    if n == 0 {
        Seq::empty()
    } else {
        layers_uploads(mode, layers, (n - 1) as nat) + mode.layer_uploads(
            (n - 1) as usize,
            layers[n - 1],
        )
    }
}

/// Everything a model uploads: the model-wide tensors, then layer by layer.
pub open spec fn model_uploads(mode: UploadMode, model: ModelLens) -> Seq<Upload> {
    mode.table_uploads(Tensor::TokEmb, model.tok_emb) + mode.table_uploads(
        Tensor::LmHead,
        model.lm_head,
    ) + mode.table_uploads(Tensor::RmsFinal, model.rms_final) + layers_uploads(
        mode,
        model.layers@,
        model.layers@.len(),
    )
}

/// What dispatch needs to know of a layer.
pub open spec fn layer_dev(mode: UploadMode, lens: LayerLens) -> LayerDev {
    let q4 = |t: Tensor| mode.packed_copy(t, lens.spec_get(t).len);
    LayerDev {
        has_bq: lens.bq.len > 0,
        has_bk: lens.bk.len > 0,
        has_bv: lens.bv.len > 0,
        has_q_norm: lens.q_norm.len > 0,
        has_router: lens.moe_router.len > 0,
        has_shared: lens.shared_wg.len > 0,
        has_gdn: lens.gdn_in_qkv.len > 0,
        q4_wq: q4(Tensor::Wq),
        q4_wk: q4(Tensor::Wk),
        q4_wv: q4(Tensor::Wv),
        q4_wo: q4(Tensor::Wo),
        q4_wg: q4(Tensor::Wg),
        q4_wu: q4(Tensor::Wu),
        q4_wd: q4(Tensor::Wd),
        q4_gdn_in_qkv: q4(Tensor::GdnInQkv),
        q4_gdn_in_z: q4(Tensor::GdnInZ),
        q4_gdn_out: q4(Tensor::GdnOut),
    }
}

impl UploadMode {
    fn is_full(&self) -> (b: bool)
        ensures
            b == (self.storage is Full),
    {
        match self.storage {
            Storage::Full => true,
            _ => false,
        }
    }

    fn is_packed_dense(&self) -> (b: bool)
        ensures
            b == self.packed_dense(),
    {
        match self.storage {
            Storage::Q4 { dense_on_device, .. } => dense_on_device,
            _ => false,
        }
    }

    fn is_packed_experts(&self) -> (b: bool)
        ensures
            b == self.packed_experts(),
    {
        match self.storage {
            Storage::Q4 { experts_on_device, .. } => experts_on_device,
            _ => false,
        }
    }

    fn wants_full(&self, t: Tensor, len: usize) -> (b: bool)
        ensures
            b == self.full_copy(t, len),
    {
        match classify(t) {
            Class::Norm => true,
            Class::Vector => len > 0,
            Class::Router => len > 0,
            Class::Expert => self.is_full() && self.resident && len > 0,
            _ => self.is_full() && !self.half && len > 0,
        }
    }

    fn wants_half(&self, t: Tensor, len: usize) -> (b: bool)
        ensures
            b == self.half_copy(t, len),
    {
        (self.half || !self.is_full()) && match classify(t) {
            Class::Norm => false,
            Class::Vector => false,
            Class::Table => !self.is_packed_dense(),
            Class::Dense => !self.is_packed_dense(),
            Class::Mla => true,
            Class::Router => true,
            Class::Shared => true,
            Class::Expert => match self.storage {
                Storage::Full => self.resident,
                Storage::Q4 { experts_on_device, .. } => !experts_on_device,
                Storage::Fp8 => true,
            },
            Class::GdnGemm => !self.is_packed_dense() && len > 0,
            Class::GdnGate => len > 0,
        }
    }

    fn wants_packed(&self, t: Tensor, len: usize) -> (b: bool)
        ensures
            b == self.packed_copy(t, len),
    {
        match classify(t) {
            Class::Table => self.is_packed_dense(),
            Class::Dense => self.is_packed_dense() && len > 0,
            Class::GdnGemm => self.is_packed_dense() && len > 0,
            Class::Expert => self.is_packed_experts(),
            _ => false,
        }
    }

    fn wants(&self, t: Tensor, len: usize, copy: DeviceCopy) -> (b: bool)
        ensures
            b == self.has_copy(t, len, copy),
    {
        match copy {
            DeviceCopy::F32 => self.wants_full(t, len),
            DeviceCopy::F16 => self.wants_half(t, len),
            DeviceCopy::Q4 => self.wants_packed(t, len),
        }
    }

    fn plan_upload(
        &self,
        layer: Option<usize>,
        t: Tensor,
        lens: TensorLens,
        copy: DeviceCopy,
    ) -> (upload: Upload)
        requires
            lens_fit(lens),
        ensures
            upload == self.upload_of(layer, t, lens, copy),
    {
        let class = classify(t);
        let weight = Weight { layer, tensor: t, copy };
        match copy {
            DeviceCopy::F32 => Upload {
                weight,
                source: Source::AsIs,
                bytes: lens.len * 4,
                scale_bytes: 0,
            },
            DeviceCopy::Q4 => Upload {
                weight,
                source: Source::Packed,
                bytes: lens.packed,
                scale_bytes: lens.scales * 4,
            },
            DeviceCopy::F16 => {
                let source = if self.is_full() || class == Class::Router || class
                    == Class::GdnGate {
                    Source::ToHalf
                } else {
                    Source::Dequantize
                };
                Upload { weight, source, bytes: lens.len * 2, scale_bytes: 0 }
            },
        }
    }

    fn push_layer_copies(
        &self,
        layer: usize,
        lens: &LayerLens,
        copy: DeviceCopy,
        uploads: &mut Vec<Upload>,
    )
        requires
            layer_fits(*lens),
        ensures
            final(uploads)@ == old(uploads)@ + self.layer_copies(
                layer,
                *lens,
                copy,
                layer_tensors().len(),
            ),
    {
        let list = layer_tensor_list();
        let mut i: usize = 0;
        assert(uploads@ =~= old(uploads)@ + self.layer_copies(layer, *lens, copy, 0));
        while i < list.len()
            invariant
                i <= list.len(),
                list@ == layer_tensors(),
                layer_fits(*lens),
                uploads@ == old(uploads)@ + self.layer_copies(layer, *lens, copy, i as nat),
            decreases list.len() - i,
        {
            let t = list[i];
            let extent = lens.get(t);
            if self.wants(t, extent.len, copy) {
                uploads.push(self.plan_upload(Some(layer), t, extent, copy));
            }
            i = i + 1;
            assert(uploads@ =~= old(uploads)@ + self.layer_copies(
                layer,
                *lens,
                copy,
                i as nat,
            ));
        }
    }

    fn push_table(&self, t: Tensor, lens: TensorLens, uploads: &mut Vec<Upload>)
        requires
            lens_fit(lens),
        ensures
            final(uploads)@ == old(uploads)@ + self.table_uploads(t, lens),
    {
        if self.wants(t, lens.len, DeviceCopy::F32) {
            uploads.push(self.plan_upload(None, t, lens, DeviceCopy::F32));
        }
        if self.wants(t, lens.len, DeviceCopy::F16) {
            uploads.push(self.plan_upload(None, t, lens, DeviceCopy::F16));
        }
        if self.wants(t, lens.len, DeviceCopy::Q4) {
            uploads.push(self.plan_upload(None, t, lens, DeviceCopy::Q4));
        }
        assert(uploads@ =~= old(uploads)@ + self.table_uploads(t, lens));
    }

    /// Everything to upload for a model.
    pub fn upload_weights(&self, model: &ModelLens) -> (uploads: Vec<Upload>)
        requires
            model.fits(),
        ensures
            uploads@ == model_uploads(*self, *model),
    {
        let mut uploads: Vec<Upload> = Vec::new();
        self.push_table(Tensor::TokEmb, model.tok_emb, &mut uploads);
        self.push_table(Tensor::LmHead, model.lm_head, &mut uploads);
        self.push_table(Tensor::RmsFinal, model.rms_final, &mut uploads);
        let ghost tables = uploads@;
        let mut li: usize = 0;
        assert(uploads@ =~= tables + layers_uploads(*self, model.layers@, 0));
        while li < model.layers.len()
            invariant
                li <= model.layers.len(),
                model.fits(),
                uploads@ == tables + layers_uploads(*self, model.layers@, li as nat),
            decreases model.layers.len() - li,
        {
            let ghost before = uploads@;
            let lens = model.layers[li];
            self.push_layer_copies(li, &lens, DeviceCopy::F32, &mut uploads);
            self.push_layer_copies(li, &lens, DeviceCopy::F16, &mut uploads);
            self.push_layer_copies(li, &lens, DeviceCopy::Q4, &mut uploads);
            assert(uploads@ =~= before + self.layer_uploads(li, lens));
            li = li + 1;
            assert(uploads@ =~= tables + layers_uploads(*self, model.layers@, li as nat));
        }
        assert(uploads@ =~= model_uploads(*self, *model));
        uploads
    }

    /// What dispatch needs to know of a layer.
    pub fn describe_layer(&self, lens: &LayerLens) -> (l: LayerDev)
        ensures
            l == layer_dev(*self, *lens),
    {
        LayerDev {
            has_bq: lens.bq.len > 0,
            has_bk: lens.bk.len > 0,
            has_bv: lens.bv.len > 0,
            has_q_norm: lens.q_norm.len > 0,
            has_router: lens.moe_router.len > 0,
            has_shared: lens.shared_wg.len > 0,
            has_gdn: lens.gdn_in_qkv.len > 0,
            q4_wq: self.wants_packed(Tensor::Wq, lens.wq.len),
            q4_wk: self.wants_packed(Tensor::Wk, lens.wk.len),
            q4_wv: self.wants_packed(Tensor::Wv, lens.wv.len),
            q4_wo: self.wants_packed(Tensor::Wo, lens.wo.len),
            q4_wg: self.wants_packed(Tensor::Wg, lens.wg.len),
            q4_wu: self.wants_packed(Tensor::Wu, lens.wu.len),
            q4_wd: self.wants_packed(Tensor::Wd, lens.wd.len),
            q4_gdn_in_qkv: self.wants_packed(Tensor::GdnInQkv, lens.gdn_in_qkv.len),
            q4_gdn_in_z: self.wants_packed(Tensor::GdnInZ, lens.gdn_in_z.len),
            q4_gdn_out: self.wants_packed(Tensor::GdnOut, lens.gdn_out.len),
        }
    }
}

} // verus!
