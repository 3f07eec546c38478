//! Buffer sizes and the byte geometry of the per-sequence state.

use vstd::prelude::*;

use crate::config::Config;
use crate::config::ModelDType;
use crate::device::Buf;

verus! {

/// Where a buffer lives.
#[derive(Debug, Clone, Copy, PartialEq, Eq, Structural)]
pub enum Memory {
    Device,
    /// Page-locked host memory.
    Pinned,
}

/// One buffer to allocate.
#[derive(Debug, Clone, Copy, PartialEq, Eq, Structural)]
pub struct Allocation {
    pub buf: Buf,
    pub memory: Memory,
    pub bytes: usize,
    /// The buffer starts out as zeros.
    pub zeroed: bool,
}

/// A byte range of a buffer.
#[derive(Debug, Clone, Copy, PartialEq, Eq, Structural)]
pub struct Slice {
    pub buf: Buf,
    pub offset: usize,
    pub bytes: usize,
}

/// What buffer sizes depend on.
#[derive(Debug, Clone, Copy, PartialEq, Eq, Structural)]
pub struct Sizes {
    pub cfg: Config,
    /// KV slots (concurrent sequences).
    pub slots: usize,
    /// Row capacity of a step.
    pub rows: usize,
}

/// The product of five factors.
pub open spec fn product5(f: (int, int, int, int, int)) -> int {
    f.0 * f.1 * f.2 * f.3 * f.4
}

/// The per-layer buffers made by `f` for the first `n` layers, in pairs.
pub open spec fn pairs(f: spec_fn(usize) -> (Buf, Buf), n: nat) -> Seq<Buf>
    decreases n,
{
    if n == 0 {
        Seq::empty()
    } else {
        pairs(f, (n - 1) as nat) + seq![f((n - 1) as usize).0, f((n - 1) as usize).1]
    }
}

pub open spec fn kv_pair() -> spec_fn(usize) -> (Buf, Buf) {
    |li: usize| (Buf::KCache(li), Buf::VCache(li))
}

pub open spec fn mla_pair() -> spec_fn(usize) -> (Buf, Buf) {
    |li: usize| (Buf::MlaKCache(li), Buf::MlaVCache(li))
}

pub open spec fn gdn_pair() -> spec_fn(usize) -> (Buf, Buf) {
    |li: usize| (Buf::GdnState(li), Buf::GdnConv(li))
}

/// `list` if `b` holds, else nothing.
pub open spec fn when(b: bool, list: Seq<Buf>) -> Seq<Buf> {
    if b {
        list
    } else {
        Seq::empty()
    }
}

impl Sizes {
    pub open spec fn half(self) -> bool {
        self.cfg.dtype == ModelDType::F16
    }

    pub open spec fn gdn(self) -> bool {
        self.cfg.full_attention_interval > 0 && self.cfg.gdn_v_heads > 0
    }

    pub open spec fn moe(self) -> bool {
        self.cfg.spec_topk() > 0
    }

    /// Width of the MLP scratch, which serves the dense MLP and the shared experts.
    pub open spec fn mlp_width(self) -> int {
        vstd::math::max(self.cfg.intermediate_size as int, self.cfg.spec_shared_size())
    }

    /// Width of the scratch for converted inputs: the residual stream and the MLP, and in half
    /// precision every other input of a projection.
    pub open spec fn widest_input(self) -> int {
        let c = self.cfg;
        let plain = vstd::math::max(c.d_model as int, self.mlp_width());
        if !self.half() {
            plain
        } else if c.kv_lora_rank > 0 {
            vstd::math::max(
                plain,
                vstd::math::max(
                    vstd::math::max(c.q_lora_rank as int, c.kv_lora_rank as int),
                    c.n_heads * c.v_head_dim,
                ),
            )
        } else {
            vstd::math::max(plain, vstd::math::max(c.spec_nq(), c.spec_gdn_value_dim()))
        }
    }

    /// Width of the scratch for outputs to convert: the residual stream, the MLP, the queries
    /// and the vocabulary, and in half precision every other output of a projection.
    pub open spec fn widest_output(self) -> int {
        let c = self.cfg;
        let plain = vstd::math::max(
            vstd::math::max(c.d_model as int, self.mlp_width()),
            vstd::math::max(c.spec_nq(), c.vocab_size as int),
        );
        let routed = vstd::math::max(plain, c.num_experts as int);
        if !self.half() {
            plain
        } else if c.kv_lora_rank > 0 {
            let low_rank = vstd::math::max(
                c.q_lora_rank as int,
                c.kv_lora_rank + c.qk_rope_head_dim,
            );
            let heads = vstd::math::max(
                c.n_heads * c.qk_rope_head_dim,
                c.n_heads * (c.qk_nope_head_dim + c.v_head_dim),
            );
            vstd::math::max(routed, vstd::math::max(low_rank, heads))
        } else {
            let queries = if c.attn_output_gate {
                2 * c.spec_nq()
            } else {
                c.spec_nq()
            };
            let linear = vstd::math::max(c.spec_conv_dim(), c.gdn_v_heads as int);
            vstd::math::max(
                vstd::math::max(routed, linear),
                vstd::math::max(queries, c.spec_nkv()),
            )
        }
    }

    /// Width of the expert scratch, which covers dense and expert widths.
    pub open spec fn moe_width(self) -> int {
        vstd::math::max(self.cfg.intermediate_size as int, self.cfg.spec_expert_size() as int)
    }

    /// Bytes of one cached KV element.
    pub open spec fn kv_elem(self) -> int {
        if self.half() {
            2
        } else {
            4
        }
    }

    /// The size of a buffer in bytes, as a product.
    pub open spec fn factors(self, buf: Buf) -> (int, int, int, int, int) {
        let c = self.cfg;
        let b = self.rows as int;
        let d = c.d_model as int;
        let cap = b * c.spec_topk();
        match buf {
            Buf::RunsDev | Buf::RunsHost => ((b + 1) / 2, 4, 4, 1, 1),
            Buf::X | Buf::Xn | Buf::Xn2 | Buf::Proj | Buf::HAcc => (b, d, 4, 1, 1),
            Buf::Q | Buf::Attn | Buf::AttnGate => (b, c.spec_nq(), 4, 1, 1),
            Buf::K | Buf::V => (b, c.spec_nkv(), 4, 1, 1),
            Buf::Gate | Buf::Up | Buf::H => (b, self.mlp_width(), 4, 1, 1),
            Buf::Logits => (b, c.vocab_size as int, 4, 1, 1),
            Buf::Xh => (b, self.widest_input(), 2, 1, 1),
            Buf::Yh => (b, self.widest_output(), 2, 1, 1),
            Buf::KCache(_) | Buf::VCache(_) => (
                self.slots as int,
                c.max_seq_len as int,
                c.n_kv_heads as int,
                c.head_dim as int,
                self.kv_elem(),
            ),
            Buf::MlaQLora | Buf::MlaQLoraN => (b, c.q_lora_rank as int, 4, 1, 1),
            Buf::QNope => (b, c.n_heads as int, c.qk_nope_head_dim as int, 4, 1),
            Buf::QRope => (b, c.n_heads as int, c.qk_rope_head_dim as int, 4, 1),
            Buf::MlaKvA => (b, c.kv_lora_rank + c.qk_rope_head_dim, 4, 1, 1),
            Buf::MlaKvAN | Buf::MlaKvLora => (b, c.kv_lora_rank as int, 4, 1, 1),
            Buf::MlaKv => (b, c.n_heads as int, c.qk_nope_head_dim + c.v_head_dim, 4, 1),
            Buf::MlaKRope => (b, c.qk_rope_head_dim as int, 4, 1, 1),
            Buf::MlaAttn => (b, c.n_heads as int, c.v_head_dim as int, 4, 1),
            Buf::MlaKCache(_) => (
                self.slots as int,
                c.max_seq_len as int,
                c.n_heads as int,
                c.qk_nope_head_dim + c.qk_rope_head_dim,
                4,
            ),
            Buf::MlaVCache(_) => (
                self.slots as int,
                c.max_seq_len as int,
                c.n_heads as int,
                c.v_head_dim as int,
                4,
            ),
            Buf::Qg => (b, 2, c.spec_nq(), 4, 1),
            Buf::GdnQkvPre | Buf::GdnQkv => (b, c.spec_conv_dim(), 4, 1, 1),
            Buf::GdnZ | Buf::GdnO => (b, c.spec_gdn_value_dim(), 4, 1, 1),
            Buf::GdnA | Buf::GdnB => (b, c.gdn_v_heads as int, 4, 1, 1),
            Buf::GdnState(_) => (
                self.slots as int,
                c.gdn_v_heads as int,
                c.gdn_head_dim as int,
                c.gdn_head_dim as int,
                4,
            ),
            Buf::GdnConv(_) => (
                self.slots as int,
                c.spec_conv_dim(),
                c.gdn_conv_kernel - 1,
                4,
                1,
            ),
            Buf::Router => (b, c.num_experts as int, 4, 1, 1),
            Buf::ExpIds | Buf::ExpW | Buf::Gw | Buf::RowIdx => (cap, 4, 1, 1, 1),
            Buf::CountsDev | Buf::MoePosDev | Buf::OffsetsDev | Buf::CountsHost => (
                c.num_experts as int,
                4,
                1,
                1,
                1,
            ),
            Buf::Xg | Buf::DownAll => (cap, d, 4, 1, 1),
            Buf::GateAll | Buf::UpAll | Buf::EhAll => (cap, self.moe_width(), 4, 1, 1),
            Buf::XhMoe | Buf::YhMoe => (cap, vstd::math::max(d, self.moe_width()), 2, 1, 1),
            _ => (b, 4, 1, 1, 1),
        }
    }

    /// The size of a buffer in bytes.
    pub open spec fn bytes(self, buf: Buf) -> int {
        product5(self.factors(buf))
    }

    pub open spec fn base_buffers(self) -> Seq<Buf> {
        seq![
            Buf::TokensDev,
            Buf::PosDev,
            Buf::SlotsDev,
            Buf::RunsDev,
            Buf::RunMaskDev,
            Buf::TokensHost,
            Buf::PosHost,
            Buf::SlotsHost,
            Buf::RunsHost,
            Buf::RunMaskHost,
            Buf::X,
            Buf::Xn,
            Buf::Xn2,
            Buf::Q,
            Buf::K,
            Buf::V,
            Buf::Attn,
            Buf::Proj,
            Buf::Gate,
            Buf::Up,
            Buf::H,
            Buf::Logits,
            Buf::Xh,
            Buf::Yh,
            Buf::OutTokDev,
            Buf::OutTokHost,
        ]
    }

    pub open spec fn mla_buffers(self) -> Seq<Buf> {
        seq![
            Buf::MlaQLora,
            Buf::MlaQLoraN,
            Buf::QNope,
            Buf::QRope,
            Buf::MlaKvA,
            Buf::MlaKvAN,
            Buf::MlaKvLora,
            Buf::MlaKv,
            Buf::MlaKRope,
            Buf::MlaAttn,
        ]
    }

    pub open spec fn gdn_buffers(self) -> Seq<Buf> {
        seq![Buf::GdnQkvPre, Buf::GdnQkv, Buf::GdnZ, Buf::GdnA, Buf::GdnB, Buf::GdnO]
    }

    pub open spec fn moe_buffers(self) -> Seq<Buf> {
        seq![
            Buf::Router,
            Buf::ExpIds,
            Buf::ExpW,
            Buf::CountsDev,
            Buf::MoePosDev,
            Buf::OffsetsDev,
            Buf::Xg,
            Buf::Gw,
            Buf::RowIdx,
            Buf::HAcc,
            Buf::GateAll,
            Buf::UpAll,
            Buf::EhAll,
            Buf::DownAll,
            Buf::CountsHost,
        ] + when(self.half(), seq![Buf::XhMoe, Buf::YhMoe])
    }

    /// The buffers that carry a sequence's state from step to step, layer by layer.
    pub open spec fn state_buffers(self) -> Seq<Buf> {
        let n = self.cfg.n_layers as nat;
        when(self.cfg.kv_lora_rank == 0, pairs(kv_pair(), n)) + when(
            self.cfg.kv_lora_rank > 0,
            pairs(mla_pair(), n),
        ) + when(self.gdn(), pairs(gdn_pair(), n))
    }

    /// Every buffer of the model. The dense KV cache is left out on the low-rank path, which
    /// keeps its expanded per-head caches instead.
    pub open spec fn buffers(self) -> Seq<Buf> {
        self.base_buffers() + when(self.cfg.kv_lora_rank > 0, self.mla_buffers()) + when(
            self.cfg.attn_output_gate,
            seq![Buf::Qg, Buf::AttnGate],
        ) + when(self.gdn(), self.gdn_buffers()) + when(self.moe(), self.moe_buffers())
            + self.state_buffers()
    }

    pub open spec fn pinned(buf: Buf) -> bool {
        match buf {
            Buf::TokensHost => true,
            Buf::PosHost => true,
            Buf::SlotsHost => true,
            Buf::RunsHost => true,
            Buf::RunMaskHost => true,
            Buf::OutTokHost => true,
            Buf::CountsHost => true,
            _ => false,
        }
    }

    pub open spec fn allocation(self, buf: Buf) -> Allocation {
        Allocation {
            buf,
            memory: if Sizes::pinned(buf) {
                Memory::Pinned
            } else {
                Memory::Device
            },
            bytes: self.bytes(buf) as usize,
            zeroed: buf is GdnState || buf is GdnConv,
        }
    }

    /// Sizes of all buffers are machine words.
    pub open spec fn allocatable(self) -> bool {
        forall|i: int|
            0 <= i < self.buffers().len() ==> self.bytes(#[trigger] self.buffers()[i])
                <= usize::MAX
    }

    /// The kernels can address every width, and linear attention has a conv kernel.
    pub open spec fn wf(self) -> bool {
        &&& self.cfg.fits(self.rows as int)
        &&& self.gdn() ==> self.cfg.gdn_conv_kernel > 0
    }
}

proof fn lemma_factor_bounds(a: int, b: int)
    requires
        0 <= a,
        0 <= b,
    ensures
        0 <= a * b,
        b >= 1 ==> a <= a * b,
        a == 0 ==> a * b == 0,
        b == 0 ==> a * b == 0,
{
    assert(0 <= a * b && (b >= 1 ==> a <= a * b) && (a == 0 ==> a * b == 0) && (b == 0 ==> a * b
        == 0)) by (nonlinear_arith)
        requires
            0 <= a,
            0 <= b,
    ;
}

/// The product of five factors, unless it exceeds a machine word.
fn checked_product5(a: usize, b: usize, c: usize, d: usize, e: usize) -> (p: Option<usize>)
    ensures
        match p {
            Some(p) => p == product5((a as int, b as int, c as int, d as int, e as int)),
            None => product5((a as int, b as int, c as int, d as int, e as int)) > usize::MAX,
        },
{
    let ghost ab = a * b;
    let ghost abc = a * b * c;
    let ghost abcd = a * b * c * d;
    proof {
        lemma_factor_bounds(a as int, b as int);
        lemma_factor_bounds(ab, c as int);
        lemma_factor_bounds(abc, d as int);
        lemma_factor_bounds(abcd, e as int);
    }
    if a == 0 || b == 0 || c == 0 || d == 0 || e == 0 {
        return Some(0);
    }
    let ab: usize = match a.checked_mul(b) {
        Some(p) => p,
        None => {
            return None;
        },
    };
    let abc: usize = match ab.checked_mul(c) {
        Some(p) => p,
        None => {
            return None;
        },
    };
    let abcd: usize = match abc.checked_mul(d) {
        Some(p) => p,
        None => {
            return None;
        },
    };
    abcd.checked_mul(e)
}

fn larger(a: usize, b: usize) -> (m: usize)
    ensures
        m == vstd::math::max(a as int, b as int),
{
    if a > b {
        a
    } else {
        b
    }
}

fn push_all(list: &mut Vec<Buf>, more: Vec<Buf>)
    ensures
        final(list)@ == old(list)@ + more@,
{
    let mut i: usize = 0;
    assert(list@ =~= old(list)@ + more@.take(0));
    while i < more.len()
        invariant
            i <= more.len(),
            list@ == old(list)@ + more@.take(i as int),
        decreases more.len() - i,
    {
        list.push(more[i]);
        i = i + 1;
        assert(list@ =~= old(list)@ + more@.take(i as int));
    }
    assert(more@.take(i as int) =~= more@);
}

impl Sizes {
    proof fn lemma_wf(self)
        requires
            self.wf(),
        ensures
            0 <= self.cfg.spec_nq(),
            0 <= self.cfg.spec_nkv(),
            0 <= self.cfg.spec_shared_size() <= usize::MAX,
            0 <= self.cfg.spec_gdn_key_dim() <= usize::MAX,
            0 <= self.cfg.spec_gdn_value_dim() <= usize::MAX,
            0 <= self.cfg.spec_topk() <= usize::MAX,
            0 <= self.rows * self.cfg.spec_topk() <= usize::MAX,
            0 <= self.cfg.n_heads * self.cfg.v_head_dim <= i32::MAX,
            0 <= self.cfg.n_heads * self.cfg.qk_rope_head_dim <= i32::MAX,
    {
        let c = self.cfg;
        let (h, nope, rope, v) = (
            c.n_heads as int,
            c.qk_nope_head_dim as int,
            c.qk_rope_head_dim as int,
            c.v_head_dim as int,
        );
        assert(0 <= h * v <= h * (nope + v) && 0 <= h * rope <= h * (nope + rope))
            by (nonlinear_arith)
            requires
                0 <= h,
                0 <= nope,
                0 <= rope,
                0 <= v,
        ;
        lemma_factor_bounds(c.n_heads as int, c.head_dim as int);
        lemma_factor_bounds(c.n_kv_heads as int, c.head_dim as int);
        lemma_factor_bounds(c.n_shared_experts as int, c.spec_expert_size() as int);
        lemma_factor_bounds(c.gdn_k_heads as int, c.gdn_head_dim as int);
        lemma_factor_bounds(c.gdn_v_heads as int, c.gdn_head_dim as int);
        lemma_factor_bounds(self.rows as int, c.spec_topk());
    }

    fn is_half(&self) -> (b: bool)
        ensures
            b == self.half(),
    {
        self.cfg.dtype == ModelDType::F16
    }

    fn topk(&self) -> (n: usize)
        ensures
            n == self.cfg.spec_topk(),
    {
        if self.cfg.num_experts_per_tok < self.cfg.num_experts {
            self.cfg.num_experts_per_tok
        } else {
            self.cfg.num_experts
        }
    }

    fn elem_bytes(&self) -> (n: usize)
        ensures
            n == self.kv_elem(),
    {
        if self.is_half() {
            2
        } else {
            4
        }
    }

    fn input_width(&self) -> (n: usize)
        requires
            self.wf(),
        ensures
            n == self.widest_input(),
    {
        proof {
            self.lemma_wf();
        }
        let c = self.cfg;
        let mlp: usize = larger(c.intermediate_size, c.shared_size());
        let plain: usize = larger(c.d_model, mlp);
        if !self.is_half() {
            plain
        } else if c.kv_lora_rank > 0 {
            let ranks: usize = larger(c.q_lora_rank, c.kv_lora_rank);
            larger(plain, larger(ranks, c.n_heads * c.v_head_dim))
        } else {
            larger(plain, larger(c.n_heads * c.head_dim, c.gdn_value_dim()))
        }
    }

    fn output_width(&self) -> (n: usize)
        requires
            self.wf(),
        ensures
            n == self.widest_output(),
    {
        proof {
            self.lemma_wf();
        }
        let c = self.cfg;
        let mlp: usize = larger(c.intermediate_size, c.shared_size());
        let nq: usize = c.n_heads * c.head_dim;
        let plain: usize = larger(larger(c.d_model, mlp), larger(nq, c.vocab_size));
        let routed: usize = larger(plain, c.num_experts);
        if !self.is_half() {
            plain
        } else if c.kv_lora_rank > 0 {
            let low_rank: usize = larger(c.q_lora_rank, c.kv_lora_rank + c.qk_rope_head_dim);
            let heads: usize = larger(
                c.n_heads * c.qk_rope_head_dim,
                c.n_heads * (c.qk_nope_head_dim + c.v_head_dim),
            );
            larger(routed, larger(low_rank, heads))
        } else {
            let queries: usize = if c.attn_output_gate {
                2 * nq
            } else {
                nq
            };
            let conv: usize = 2 * c.gdn_key_dim() + c.gdn_value_dim();
            larger(
                larger(routed, larger(conv, c.gdn_v_heads)),
                larger(queries, c.n_kv_heads * c.head_dim),
            )
        }
    }

    /// The size of a buffer in bytes, unless it exceeds a machine word.
    pub fn buffer_bytes(&self, buf: Buf) -> (bytes: Option<usize>)
        requires
            self.wf(),
            buf is GdnConv ==> self.gdn(),
        ensures
            match bytes {
                Some(n) => n == self.bytes(buf),
                None => self.bytes(buf) > usize::MAX,
            },
    {
        proof {
            self.lemma_wf();
        }
        let c = self.cfg;
        let b: usize = self.rows;
        let d: usize = c.d_model;
        let nq: usize = c.n_heads * c.head_dim;
        let nkv: usize = c.n_kv_heads * c.head_dim;
        let mlp: usize = larger(c.intermediate_size, c.shared_size());
        let expert: usize = larger(c.intermediate_size, c.expert_size());
        let cap: usize = b * self.topk();
        let vd: usize = c.gdn_value_dim();
        let conv: usize = 2 * c.gdn_key_dim() + vd;
        match buf {
            Buf::RunsDev | Buf::RunsHost => {
                let runs: usize = b / 2 + b % 2;
                checked_product5(runs, 4, 4, 1, 1)
            },
            Buf::X | Buf::Xn | Buf::Xn2 | Buf::Proj | Buf::HAcc => checked_product5(b, d, 4, 1, 1),
            Buf::Q | Buf::Attn | Buf::AttnGate => checked_product5(b, nq, 4, 1, 1),
            Buf::K | Buf::V => checked_product5(b, nkv, 4, 1, 1),
            Buf::Gate | Buf::Up | Buf::H => checked_product5(b, mlp, 4, 1, 1),
            Buf::Logits => checked_product5(b, c.vocab_size, 4, 1, 1),
            Buf::Xh => checked_product5(b, self.input_width(), 2, 1, 1),
            Buf::Yh => checked_product5(b, self.output_width(), 2, 1, 1),
            Buf::KCache(_) | Buf::VCache(_) => checked_product5(
                self.slots,
                c.max_seq_len,
                c.n_kv_heads,
                c.head_dim,
                self.elem_bytes(),
            ),
            Buf::MlaQLora | Buf::MlaQLoraN => checked_product5(b, c.q_lora_rank, 4, 1, 1),
            Buf::QNope => checked_product5(b, c.n_heads, c.qk_nope_head_dim, 4, 1),
            Buf::QRope => checked_product5(b, c.n_heads, c.qk_rope_head_dim, 4, 1),
            Buf::MlaKvA => checked_product5(b, c.kv_lora_rank + c.qk_rope_head_dim, 4, 1, 1),
            Buf::MlaKvAN | Buf::MlaKvLora => checked_product5(b, c.kv_lora_rank, 4, 1, 1),
            Buf::MlaKv => checked_product5(b, c.n_heads, c.qk_nope_head_dim + c.v_head_dim, 4, 1),
            Buf::MlaKRope => checked_product5(b, c.qk_rope_head_dim, 4, 1, 1),
            Buf::MlaAttn => checked_product5(b, c.n_heads, c.v_head_dim, 4, 1),
            Buf::MlaKCache(_) => checked_product5(
                self.slots,
                c.max_seq_len,
                c.n_heads,
                c.qk_nope_head_dim + c.qk_rope_head_dim,
                4,
            ),
            Buf::MlaVCache(_) => checked_product5(
                self.slots,
                c.max_seq_len,
                c.n_heads,
                c.v_head_dim,
                4,
            ),
            Buf::Qg => checked_product5(b, 2, nq, 4, 1),
            Buf::GdnQkvPre | Buf::GdnQkv => checked_product5(b, conv, 4, 1, 1),
            Buf::GdnZ | Buf::GdnO => checked_product5(b, vd, 4, 1, 1),
            Buf::GdnA | Buf::GdnB => checked_product5(b, c.gdn_v_heads, 4, 1, 1),
            Buf::GdnState(_) => checked_product5(
                self.slots,
                c.gdn_v_heads,
                c.gdn_head_dim,
                c.gdn_head_dim,
                4,
            ),
            Buf::GdnConv(_) => checked_product5(self.slots, conv, c.gdn_conv_kernel - 1, 4, 1),
            Buf::Router => checked_product5(b, c.num_experts, 4, 1, 1),
            Buf::ExpIds | Buf::ExpW | Buf::Gw | Buf::RowIdx => checked_product5(cap, 4, 1, 1, 1),
            Buf::CountsDev
            | Buf::MoePosDev
            | Buf::OffsetsDev
            | Buf::CountsHost => checked_product5(c.num_experts, 4, 1, 1, 1),
            Buf::Xg | Buf::DownAll => checked_product5(cap, d, 4, 1, 1),
            Buf::GateAll | Buf::UpAll | Buf::EhAll => checked_product5(cap, expert, 4, 1, 1),
            Buf::XhMoe | Buf::YhMoe => checked_product5(cap, larger(d, expert), 2, 1, 1),
            _ => checked_product5(b, 4, 1, 1, 1),
        }
    }

    fn state_list(&self) -> (list: Vec<Buf>)
        ensures
            list@ == self.state_buffers(),
    {
        let n: usize = self.cfg.n_layers;
        let mut list: Vec<Buf> = Vec::new();
        if self.cfg.kv_lora_rank == 0 {
            let mut li: usize = 0;
            while li < n
                invariant
                    li <= n,
                    list@ == pairs(kv_pair(), li as nat),
                decreases n - li,
            {
                list.push(Buf::KCache(li));
                list.push(Buf::VCache(li));
                li = li + 1;
                assert(list@ =~= pairs(kv_pair(), li as nat));
            }
        } else {
            let mut li: usize = 0;
            while li < n
                invariant
                    li <= n,
                    list@ == pairs(mla_pair(), li as nat),
                decreases n - li,
            {
                list.push(Buf::MlaKCache(li));
                list.push(Buf::MlaVCache(li));
                li = li + 1;
                assert(list@ =~= pairs(mla_pair(), li as nat));
            }
        }
        if self.cfg.gdn_enabled() {
            let ghost before = list@;
            let mut li: usize = 0;
            assert(list@ =~= before + pairs(gdn_pair(), 0));
            while li < n
                invariant
                    li <= n,
                    list@ == before + pairs(gdn_pair(), li as nat),
                decreases n - li,
            {
                list.push(Buf::GdnState(li));
                list.push(Buf::GdnConv(li));
                li = li + 1;
                assert(list@ =~= before + pairs(gdn_pair(), li as nat));
            }
        }
        assert(list@ =~= self.state_buffers());
        list
    }

    fn buffer_list(&self) -> (list: Vec<Buf>)
        ensures
            list@ == self.buffers(),
    {
        let mut list = vec![
            Buf::TokensDev,
            Buf::PosDev,
            Buf::SlotsDev,
            Buf::RunsDev,
            Buf::RunMaskDev,
            Buf::TokensHost,
            Buf::PosHost,
            Buf::SlotsHost,
            Buf::RunsHost,
            Buf::RunMaskHost,
            Buf::X,
            Buf::Xn,
            Buf::Xn2,
            Buf::Q,
            Buf::K,
            Buf::V,
            Buf::Attn,
            Buf::Proj,
            Buf::Gate,
            Buf::Up,
            Buf::H,
            Buf::Logits,
            Buf::Xh,
            Buf::Yh,
            Buf::OutTokDev,
            Buf::OutTokHost,
        ];
        assert(list@ =~= self.base_buffers());
        if self.cfg.kv_lora_rank > 0 {
            let mla = vec![
                Buf::MlaQLora,
                Buf::MlaQLoraN,
                Buf::QNope,
                Buf::QRope,
                Buf::MlaKvA,
                Buf::MlaKvAN,
                Buf::MlaKvLora,
                Buf::MlaKv,
                Buf::MlaKRope,
                Buf::MlaAttn,
            ];
            assert(mla@ =~= self.mla_buffers());
            push_all(&mut list, mla);
        }
        let ghost a = self.base_buffers() + when(self.cfg.kv_lora_rank > 0, self.mla_buffers());
        assert(list@ =~= a);
        if self.cfg.attn_output_gate {
            list.push(Buf::Qg);
            list.push(Buf::AttnGate);
        }
        let ghost b = a + when(self.cfg.attn_output_gate, seq![Buf::Qg, Buf::AttnGate]);
        assert(list@ =~= b);
        if self.cfg.gdn_enabled() {
            let gdn = vec![
                Buf::GdnQkvPre,
                Buf::GdnQkv,
                Buf::GdnZ,
                Buf::GdnA,
                Buf::GdnB,
                Buf::GdnO,
            ];
            assert(gdn@ =~= self.gdn_buffers());
            push_all(&mut list, gdn);
        }
        let ghost c = b + when(self.gdn(), self.gdn_buffers());
        assert(list@ =~= c);
        if self.topk() > 0 {
            let mut moe = vec![
                Buf::Router,
                Buf::ExpIds,
                Buf::ExpW,
                Buf::CountsDev,
                Buf::MoePosDev,
                Buf::OffsetsDev,
                Buf::Xg,
                Buf::Gw,
                Buf::RowIdx,
                Buf::HAcc,
                Buf::GateAll,
                Buf::UpAll,
                Buf::EhAll,
                Buf::DownAll,
                Buf::CountsHost,
            ];
            if self.is_half() {
                moe.push(Buf::XhMoe);
                moe.push(Buf::YhMoe);
            }
            assert(moe@ =~= self.moe_buffers());
            push_all(&mut list, moe);
        }
        let ghost d = c + when(self.moe(), self.moe_buffers());
        assert(list@ =~= d);
        let state = self.state_list();
        push_all(&mut list, state);
        list
    }

    fn plan_allocation(&self, buf: Buf, bytes: usize) -> (a: Allocation)
        requires
            bytes == self.bytes(buf),
        ensures
            a == self.allocation(buf),
    {
        let pinned: bool = matches!(buf, Buf::TokensHost)
            || matches!(buf, Buf::PosHost)
            || matches!(buf, Buf::SlotsHost)
            || matches!(buf, Buf::RunsHost)
            || matches!(buf, Buf::RunMaskHost)
            || matches!(buf, Buf::OutTokHost)
            || matches!(buf, Buf::CountsHost);
        let zeroed: bool = matches!(buf, Buf::GdnState(_)) || matches!(buf, Buf::GdnConv(_));
        Allocation {
            buf,
            memory: if pinned {
                Memory::Pinned
            } else {
                Memory::Device
            },
            bytes,
            zeroed,
        }
    }

    /// Every buffer to allocate, or `None` if a size exceeds a machine word.
    pub fn alloc_buffers(&self) -> (plan: Option<Vec<Allocation>>)
        requires
            self.wf(),
        ensures
            match plan {
                Some(plan) => self.allocatable() && plan@ == self.buffers().map_values(
                    |buf: Buf| self.allocation(buf),
                ),
                None => !self.allocatable(),
            },
    {
        let list = self.buffer_list();
        let ghost want = self.buffers().map_values(|buf: Buf| self.allocation(buf));
        proof {
            self.lemma_conv_needs_gdn();
        }
        let mut plan: Vec<Allocation> = Vec::new();
        let mut i: usize = 0;
        while i < list.len()
            invariant
                self.wf(),
                i <= list.len(),
                list@ == self.buffers(),
                want == self.buffers().map_values(|buf: Buf| self.allocation(buf)),
                forall|k: int|
                    0 <= k < list.len() ==> (#[trigger] self.buffers()[k] is GdnConv
                        ==> self.gdn()),
                forall|k: int|
                    0 <= k < i ==> self.bytes(#[trigger] self.buffers()[k]) <= usize::MAX,
                plan@ == want.take(i as int),
            decreases list.len() - i,
        {
            let buf = list[i];
            assert(buf == self.buffers()[i as int]);
            match self.buffer_bytes(buf) {
                Some(bytes) => {
                    plan.push(self.plan_allocation(buf, bytes));
                },
                None => {
                    return None;
                },
            }
            i = i + 1;
            assert(plan@ =~= want.take(i as int));
        }
        assert(want.take(i as int) =~= want);
        Some(plan)
    }

    proof fn lemma_conv_needs_gdn(self)
        ensures
            forall|k: int|
                0 <= k < self.buffers().len() ==> (#[trigger] self.buffers()[k] is GdnConv
                    ==> self.gdn()),
    {
        assert forall|k: int|
            0 <= k < self.buffers().len() && #[trigger] self.buffers()[k] is GdnConv implies self.gdn() by {
            let front = self.base_buffers() + when(
                self.cfg.kv_lora_rank > 0,
                self.mla_buffers(),
            ) + when(self.cfg.attn_output_gate, seq![Buf::Qg, Buf::AttnGate]) + when(
                self.gdn(),
                self.gdn_buffers(),
            ) + when(self.moe(), self.moe_buffers());
            if !self.gdn() {
                let n = self.cfg.n_layers as nat;
                lemma_pairs_kind(n);
                let st = self.state_buffers();
                assert(self.buffers() =~= front + st);
                if k >= front.len() {
                    let j = k - front.len();
                    assert(self.buffers()[k] == st[j]);
                    if self.cfg.kv_lora_rank == 0 {
                        assert(st[j] == pairs(kv_pair(), n)[j]);
                    } else {
                        assert(st[j] == pairs(mla_pair(), n)[j]);
                    }
                }
            }
        }
    }
}

/// The caches of a layer stand in the listing as they were made.
proof fn lemma_pairs_kind(n: nat)
    requires
        n <= usize::MAX,
    ensures
        forall|j: int|
            0 <= j < pairs(kv_pair(), n).len() ==> (#[trigger] pairs(kv_pair(), n)[j] is KCache)
                || pairs(kv_pair(), n)[j] is VCache,
        forall|j: int|
            0 <= j < pairs(mla_pair(), n).len() ==> (#[trigger] pairs(mla_pair(), n)[j] is MlaKCache)
                || pairs(mla_pair(), n)[j] is MlaVCache,
    decreases n,
{
    if n > 0 {
        lemma_pairs_kind((n - 1) as nat);
        let a = pairs(kv_pair(), (n - 1) as nat);
        let b = pairs(mla_pair(), (n - 1) as nat);
        assert forall|j: int| 0 <= j < pairs(kv_pair(), n).len() implies (
        #[trigger] pairs(kv_pair(), n)[j] is KCache) || pairs(kv_pair(), n)[j] is VCache by {
            if j < a.len() {
                assert(pairs(kv_pair(), n)[j] == a[j]);
            }
        }
        assert forall|j: int| 0 <= j < pairs(mla_pair(), n).len() implies (
        #[trigger] pairs(mla_pair(), n)[j] is MlaKCache) || pairs(
            mla_pair(),
            n,
        )[j] is MlaVCache by {
            if j < b.len() {
                assert(pairs(mla_pair(), n)[j] == b[j]);
            }
        }
    }
}

/// A copy within one buffer.
#[derive(Debug, Clone, Copy, PartialEq, Eq, Structural)]
pub struct Move {
    pub buf: Buf,
    pub src: usize,
    pub dst: usize,
    pub bytes: usize,
}

impl Sizes {
    /// The KV caches, layer by layer.
    pub open spec fn kv_buffers(self) -> Seq<Buf> {
        if self.cfg.kv_lora_rank == 0 {
            pairs(kv_pair(), self.cfg.n_layers as nat)
        } else {
            pairs(mla_pair(), self.cfg.n_layers as nat)
        }
    }

    /// Bytes of one position of one sequence in a KV cache.
    pub open spec fn token_bytes(self, buf: Buf) -> int {
        let c = self.cfg;
        match buf {
            Buf::MlaKCache(_) => c.n_heads * (c.qk_nope_head_dim + c.qk_rope_head_dim) * 4,
            Buf::MlaVCache(_) => c.n_heads * c.v_head_dim * 4,
            _ => c.n_kv_heads * c.head_dim * self.kv_elem(),
        }
    }

    /// Bytes of one sequence in a KV cache.
    pub open spec fn slot_bytes(self, buf: Buf) -> int {
        self.cfg.max_seq_len * self.token_bytes(buf)
    }

    /// The first `len` positions of sequence slot `slot` in a KV cache.
    pub open spec fn prefix_slice(self, buf: Buf, slot: int, len: int) -> Slice {
        Slice {
            buf,
            offset: (slot * self.slot_bytes(buf)) as usize,
            bytes: (len * self.token_bytes(buf)) as usize,
        }
    }

    pub open spec fn prefix_move(self, buf: Buf, from: int, to: int, len: int) -> Move {
        Move {
            buf,
            src: (from * self.slot_bytes(buf)) as usize,
            dst: (to * self.slot_bytes(buf)) as usize,
            bytes: (len * self.token_bytes(buf)) as usize,
        }
    }

    /// A sequence's prefix lies inside the cache, and inside the part that belongs to its slot.
    pub proof fn lemma_prefix_inside(self, buf: Buf, slot: int, len: int)
        requires
            self.wf(),
            buf is KCache || buf is VCache || buf is MlaKCache || buf is MlaVCache,
            0 <= slot < self.slots,
            0 <= len <= self.cfg.max_seq_len,
        ensures
            self.bytes(buf) == self.slots * self.slot_bytes(buf),
            0 <= self.token_bytes(buf),
            0 <= self.slot_bytes(buf),
            0 <= len * self.token_bytes(buf) <= self.slot_bytes(buf),
            0 <= slot * self.slot_bytes(buf),
            slot * self.slot_bytes(buf) + len * self.token_bytes(buf) <= (slot + 1)
                * self.slot_bytes(buf) <= self.bytes(buf),
    {
        let f = self.factors(buf);
        let t = self.token_bytes(buf);
        let m = self.cfg.max_seq_len as int;
        let s = self.slots as int;
        let row = self.slot_bytes(buf);
        assert(f.0 == s && f.1 == m);
        assert(t == f.2 * f.3 * f.4);
        assert(s * m * f.2 * f.3 * f.4 == s * (m * (f.2 * f.3 * f.4))) by (nonlinear_arith);
        lemma_factor_bounds(f.2, f.3);
        lemma_factor_bounds(f.2 * f.3, f.4);
        lemma_factor_bounds(m, t);
        lemma_factor_bounds(len, t);
        lemma_factor_bounds(slot, row);
        assert(len * t <= m * t) by (nonlinear_arith)
            requires
                0 <= t,
                len <= m,
        ;
        assert((slot + 1) * row == slot * row + row) by (nonlinear_arith);
        assert((slot + 1) * row <= s * row) by (nonlinear_arith)
            requires
                slot + 1 <= s,
                0 <= row,
        ;
    }

    fn kv_list(&self) -> (list: Vec<Buf>)
        ensures
            list@ == self.kv_buffers(),
    {
        let n: usize = self.cfg.n_layers;
        let mut list: Vec<Buf> = Vec::new();
        let dense: bool = self.cfg.kv_lora_rank == 0;
        let mut li: usize = 0;
        while li < n
            invariant
                li <= n,
                dense == (self.cfg.kv_lora_rank == 0),
                list@ == if dense {
                    pairs(kv_pair(), li as nat)
                } else {
                    pairs(mla_pair(), li as nat)
                },
            decreases n - li,
        {
            if dense {
                list.push(Buf::KCache(li));
                list.push(Buf::VCache(li));
            } else {
                list.push(Buf::MlaKCache(li));
                list.push(Buf::MlaVCache(li));
            }
            li = li + 1;
            assert(list@ =~= if dense {
                pairs(kv_pair(), li as nat)
            } else {
                pairs(mla_pair(), li as nat)
            });
        }
        list
    }

    /// The KV caches are among the buffers, so their sizes are machine words.
    proof fn lemma_kv_allocated(self, i: int)
        requires
            self.allocatable(),
            0 <= i < self.kv_buffers().len(),
        ensures
            self.bytes(self.kv_buffers()[i]) <= usize::MAX,
            ({
                let b = self.kv_buffers()[i];
                b is KCache || b is VCache || b is MlaKCache || b is MlaVCache
            }),
    {
        lemma_pairs_kind(self.cfg.n_layers as nat);
        let front = self.base_buffers() + when(self.cfg.kv_lora_rank > 0, self.mla_buffers())
            + when(self.cfg.attn_output_gate, seq![Buf::Qg, Buf::AttnGate]) + when(
            self.gdn(),
            self.gdn_buffers(),
        ) + when(self.moe(), self.moe_buffers());
        let st = self.state_buffers();
        assert(self.buffers() =~= front + st);
        assert(st[i] == self.kv_buffers()[i]);
        assert(self.buffers()[front.len() + i] == st[i]);
    }

    fn token_size(&self, buf: Buf) -> (n: usize)
        requires
            self.wf(),
            self.token_bytes(buf) <= usize::MAX,
        ensures
            n == self.token_bytes(buf),
    {
        let c = self.cfg;
        proof {
            self.lemma_wf();
            lemma_factor_bounds(
                c.n_heads as int,
                c.qk_nope_head_dim + c.qk_rope_head_dim,
            );
            lemma_factor_bounds(c.n_heads as int, c.v_head_dim as int);
        }
        match buf {
            Buf::MlaKCache(_) => c.n_heads * (c.qk_nope_head_dim + c.qk_rope_head_dim) * 4,
            Buf::MlaVCache(_) => c.n_heads * c.v_head_dim * 4,
            _ => c.n_kv_heads * c.head_dim * self.elem_bytes(),
        }
    }

    /// The first `len` positions of a sequence in every KV cache.
    pub fn prefix_slices(&self, slot: usize, len: usize) -> (slices: Vec<Slice>)
        requires
            self.wf(),
            self.allocatable(),
            slot < self.slots,
            0 < len <= self.cfg.max_seq_len,
        ensures
            slices@ == self.kv_buffers().map_values(
                |buf: Buf| self.prefix_slice(buf, slot as int, len as int),
            ),
    {
        let list = self.kv_list();
        let ghost want = self.kv_buffers().map_values(
            |buf: Buf| self.prefix_slice(buf, slot as int, len as int),
        );
        let mut slices: Vec<Slice> = Vec::new();
        let mut i: usize = 0;
        while i < list.len()
            invariant
                self.wf(),
                self.allocatable(),
                slot < self.slots,
                0 < len <= self.cfg.max_seq_len,
                i <= list.len(),
                list@ == self.kv_buffers(),
                want == self.kv_buffers().map_values(
                    |buf: Buf| self.prefix_slice(buf, slot as int, len as int),
                ),
                slices@ == want.take(i as int),
            decreases list.len() - i,
        {
            let buf = list[i];
            proof {
                self.lemma_kv_allocated(i as int);
                self.lemma_prefix_inside(buf, slot as int, len as int);
                self.lemma_prefix_inside(buf, slot as int, 1);
                assert(1 * self.token_bytes(buf) == self.token_bytes(buf));
                assert(slot * self.slot_bytes(buf) <= (slot + 1) * self.slot_bytes(buf));
                lemma_factor_bounds(self.slots as int, self.slot_bytes(buf));
                assert(self.slot_bytes(buf) <= self.slots * self.slot_bytes(buf))
                    by (nonlinear_arith)
                    requires
                        self.slots >= 1,
                        0 <= self.slot_bytes(buf),
                ;
            }
            let token: usize = self.token_size(buf);
            let row: usize = self.cfg.max_seq_len * token;
            slices.push(Slice { buf, offset: slot * row, bytes: len * token });
            i = i + 1;
            assert(slices@ =~= want.take(i as int));
        }
        assert(want.take(i as int) =~= want);
        slices
    }

    /// The copies that move the first `len` positions of a sequence to another slot.
    pub fn copy_seq_kv(&self, from: usize, to: usize, len: usize) -> (moves: Vec<Move>)
        requires
            self.wf(),
            self.allocatable(),
            from < self.slots,
            to < self.slots,
            len <= self.cfg.max_seq_len,
        ensures
            moves@ == self.kv_buffers().map_values(
                |buf: Buf| self.prefix_move(buf, from as int, to as int, len as int),
            ),
    {
        let list = self.kv_list();
        let ghost want = self.kv_buffers().map_values(
            |buf: Buf| self.prefix_move(buf, from as int, to as int, len as int),
        );
        let mut moves: Vec<Move> = Vec::new();
        let mut i: usize = 0;
        while i < list.len()
            invariant
                self.wf(),
                self.allocatable(),
                from < self.slots,
                to < self.slots,
                len <= self.cfg.max_seq_len,
                i <= list.len(),
                list@ == self.kv_buffers(),
                want == self.kv_buffers().map_values(
                    |buf: Buf| self.prefix_move(buf, from as int, to as int, len as int),
                ),
                moves@ == want.take(i as int),
            decreases list.len() - i,
        {
            let buf = list[i];
            proof {
                self.lemma_kv_allocated(i as int);
                self.lemma_prefix_inside(buf, from as int, len as int);
                self.lemma_prefix_inside(buf, to as int, len as int);
                assert(self.slot_bytes(buf) <= self.slots * self.slot_bytes(buf))
                    by (nonlinear_arith)
                    requires
                        self.slots >= 1,
                        0 <= self.slot_bytes(buf),
                ;
            }
            if self.cfg.max_seq_len == 0 {
                proof {
                    assert(self.slot_bytes(buf) == 0) by (nonlinear_arith)
                        requires
                            self.slot_bytes(buf) == self.cfg.max_seq_len * self.token_bytes(buf),
                            self.cfg.max_seq_len == 0,
                    ;
                    assert(len * self.token_bytes(buf) == 0) by (nonlinear_arith)
                        requires
                            len == 0,
                    ;
                    assert(from * self.slot_bytes(buf) == 0 && to * self.slot_bytes(buf) == 0)
                        by (nonlinear_arith)
                        requires
                            self.slot_bytes(buf) == 0,
                    ;
                }
                moves.push(Move { buf, src: 0, dst: 0, bytes: 0 });
            } else {
                proof {
                    self.lemma_prefix_inside(buf, from as int, 1);
                    assert(1 * self.token_bytes(buf) == self.token_bytes(buf));
                }
                let token: usize = self.token_size(buf);
                let row: usize = self.cfg.max_seq_len * token;
                moves.push(Move { buf, src: from * row, dst: to * row, bytes: len * token });
            }
            i = i + 1;
            assert(moves@ =~= want.take(i as int));
        }
        assert(want.take(i as int) =~= want);
        moves
    }

    /// Everything that a reset zeroes: the whole of every buffer that carries sequence state.
    pub fn reset_slices(&self) -> (slices: Vec<Slice>)
        requires
            self.wf(),
            self.allocatable(),
        ensures
            slices@ == self.state_buffers().map_values(
                |buf: Buf| Slice { buf, offset: 0, bytes: self.bytes(buf) as usize },
            ),
    {
        let list = self.state_list();
        let ghost want = self.state_buffers().map_values(
            |buf: Buf| Slice { buf, offset: 0, bytes: self.bytes(buf) as usize },
        );
        proof {
            self.lemma_conv_needs_gdn();
        }
        let mut slices: Vec<Slice> = Vec::new();
        let mut i: usize = 0;
        while i < list.len()
            invariant
                self.wf(),
                self.allocatable(),
                i <= list.len(),
                list@ == self.state_buffers(),
                forall|k: int|
                    0 <= k < self.buffers().len() ==> (#[trigger] self.buffers()[k] is GdnConv
                        ==> self.gdn()),
                want == self.state_buffers().map_values(
                    |buf: Buf| Slice { buf, offset: 0, bytes: self.bytes(buf) as usize },
                ),
                slices@ == want.take(i as int),
            decreases list.len() - i,
        {
            let buf = list[i];
            proof {
                let front = self.base_buffers() + when(
                    self.cfg.kv_lora_rank > 0,
                    self.mla_buffers(),
                ) + when(self.cfg.attn_output_gate, seq![Buf::Qg, Buf::AttnGate]) + when(
                    self.gdn(),
                    self.gdn_buffers(),
                ) + when(self.moe(), self.moe_buffers());
                assert(self.buffers() =~= front + self.state_buffers());
                assert(self.buffers()[front.len() + i] == buf);
            }
            if let Some(bytes) = self.buffer_bytes(buf) {
                slices.push(Slice { buf, offset: 0, bytes });
            }
            i = i + 1;
            assert(slices@ =~= want.take(i as int));
        }
        assert(want.take(i as int) =~= want);
        slices
    }
}

impl Sizes {
    /// There are two KV caches per layer.
    pub proof fn lemma_kv_len(self)
        ensures
            self.kv_buffers().len() == 2 * self.cfg.n_layers,
    {
        lemma_pairs_len(kv_pair(), self.cfg.n_layers as nat);
        lemma_pairs_len(mla_pair(), self.cfg.n_layers as nat);
    }

    /// The KV caches are buffers of their own, each listed once.
    pub proof fn lemma_kv_distinct(self)
        ensures
            self.kv_buffers().no_duplicates(),
            forall|i: int|
                0 <= i < self.kv_buffers().len() ==> (#[trigger] self.kv_buffers()[i]) != Buf::X,
    {
        let n = self.cfg.n_layers as nat;
        let dense = self.cfg.kv_lora_rank == 0;
        let list = self.kv_buffers();
        self.lemma_kv_len();
        assert forall|i: int| 0 <= i < list.len() implies #[trigger] list[i] == cache_at(
            dense,
            i,
        ) by {
            lemma_cache_at(dense, n, i);
        }
        assert forall|i: int, j: int|
            0 <= i < list.len() && 0 <= j < list.len() && i != j implies list[i] != list[j] by {
            assert(list[i] == cache_at(dense, i));
            assert(list[j] == cache_at(dense, j));
        }
    }

    /// The byte count of a prefix slice is exact.
    pub proof fn lemma_kv_slice(self, slot: int, len: int, i: int)
        requires
            self.wf(),
            self.allocatable(),
            0 <= slot < self.slots,
            0 <= len <= self.cfg.max_seq_len,
            0 <= i < self.kv_buffers().len(),
        ensures
            self.prefix_slice(self.kv_buffers()[i], slot, len).bytes == len * self.token_bytes(
                self.kv_buffers()[i],
            ),
    {
        self.lemma_kv_allocated(i);
        self.lemma_prefix_inside(self.kv_buffers()[i], slot, len);
    }

    /// A prefix lies inside the part of the cache that belongs to its slot.
    pub proof fn lemma_kv_inside(self, slot: int, len: int, i: int)
        requires
            self.wf(),
            self.allocatable(),
            0 <= slot < self.slots,
            0 <= len <= self.cfg.max_seq_len,
            0 <= i < self.kv_buffers().len(),
        ensures
            ({
                let buf = self.kv_buffers()[i];
                let s = self.prefix_slice(buf, slot, len);
                &&& s.offset == slot * self.slot_bytes(buf)
                &&& 0 <= self.slot_bytes(buf)
                &&& s.offset + s.bytes <= (slot + 1) * self.slot_bytes(buf) <= self.bytes(buf)
            }),
    {
        self.lemma_kv_allocated(i);
        self.lemma_prefix_inside(self.kv_buffers()[i], slot, len);
    }

    /// With active experts, the routing buffers are among those allocated.
    pub proof fn lemma_routed_allocated(self)
        requires
            self.allocatable(),
            self.moe(),
        ensures
            self.rows * self.cfg.spec_topk() * 4 <= usize::MAX,
    {
        let front = self.base_buffers() + when(self.cfg.kv_lora_rank > 0, self.mla_buffers())
            + when(self.cfg.attn_output_gate, seq![Buf::Qg, Buf::AttnGate]) + when(
            self.gdn(),
            self.gdn_buffers(),
        );
        let m = self.moe_buffers();
        assert(self.buffers() =~= front + m + self.state_buffers());
        assert(m[1] == Buf::ExpIds);
        assert(self.buffers()[front.len() as int + 1] == m[1]);
        let cap = self.rows * self.cfg.spec_topk();
        assert(self.factors(m[1]) == (cap, 4int, 1int, 1int, 1int));
        assert(cap * 4 * 1 * 1 * 1 == cap * 4) by (nonlinear_arith);
    }
}

/// Cache `i` in the listing of the KV caches.
spec fn cache_at(dense: bool, i: int) -> Buf {
    let li = (i / 2) as usize;
    if i % 2 == 0 {
        if dense {
            Buf::KCache(li)
        } else {
            Buf::MlaKCache(li)
        }
    } else if dense {
        Buf::VCache(li)
    } else {
        Buf::MlaVCache(li)
    }
}

proof fn lemma_cache_at(dense: bool, n: nat, i: int)
    requires
        n <= usize::MAX,
        0 <= i < 2 * n,
    ensures
        dense ==> pairs(kv_pair(), n)[i] == cache_at(true, i),
        !dense ==> pairs(mla_pair(), n)[i] == cache_at(false, i),
    decreases n,
{
    lemma_pairs_len(kv_pair(), (n - 1) as nat);
    lemma_pairs_len(mla_pair(), (n - 1) as nat);
    if i < 2 * (n - 1) {
        lemma_cache_at(dense, (n - 1) as nat, i);
    }
}

proof fn lemma_pairs_len(f: spec_fn(usize) -> (Buf, Buf), n: nat)
    ensures
        pairs(f, n).len() == 2 * n,
    decreases n,
{
    if n > 0 {
        lemma_pairs_len(f, (n - 1) as nat);
    }
}

} // verus!
