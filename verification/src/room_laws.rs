//! Every operation of a step stays inside the buffers that it reads and writes.

use vstd::prelude::*;

use crate::buffers::product5;
use crate::buffers::Sizes;
use crate::device::Buf;
use crate::device::DeviceCopy;
use crate::device::Op;
use crate::device::Run;
use crate::device::Tensor;
use crate::forward::layer_weight;
use crate::forward::opt;
use crate::forward::LayerDev;
use crate::forward::Step;

verus! {

/// The buffer is allocated, with room for that many numbers of four bytes.
pub open spec fn room(s: Sizes, buf: Buf, count: int) -> bool {
    0 <= count && count * 4 <= s.bytes(buf) && s.buffers().contains(buf)
}

/// Every buffer that the operation touches has room for what it reads or writes there.
pub open spec fn inside(s: Sizes, op: Op) -> bool {
    match op {
        Op::Embed { cols, rows, .. } => room(s, Buf::X, rows * cols),
        Op::RmsNorm { x, y, rows, cols, .. } => room(s, x, rows * cols) && room(s, y, rows * cols),
        Op::Gemm { out, x, n, k, rows, .. } => room(s, out, rows * n) && room(s, x, rows * k),
        Op::GemvF16Qkv { q, nq, nkv, k, rows, .. } => room(s, Buf::Xn, rows * k) && room(
            s,
            q,
            rows * nq,
        ) && room(s, Buf::K, rows * nkv) && room(s, Buf::V, rows * nkv),
        Op::QgSplit { rows, heads, dim } => room(s, Buf::Qg, rows * (2 * (heads * dim))) && room(
            s,
            Buf::Q,
            rows * (heads * dim),
        ) && room(s, Buf::AttnGate, rows * (heads * dim)),
        Op::AddBias { x, rows, cols, .. } => room(s, x, rows * cols),
        Op::QkNorm { rows, heads, kv_heads, dim, .. } => room(s, Buf::Q, rows * (heads * dim))
            && room(s, Buf::K, rows * (kv_heads * dim)),
        Op::Rope { q, k, rows, heads, kv_heads, dim, .. } => room(s, q, rows * (heads * dim))
            && room(s, k, rows * (kv_heads * dim)),
        Op::KvStore { kv, rows, kv_heads, dim, .. } => room(s, kv, rows * (kv_heads * dim)),
        Op::KvStorePaged { kv, rows, kv_heads, dim, .. } => room(s, kv, rows * (kv_heads * dim)),
        Op::AttnBatched { rows, heads, dim, .. } => room(s, Buf::Q, rows * (heads * dim)) && room(
            s,
            Buf::Attn,
            rows * (heads * dim),
        ),
        Op::AttnPaged { rows, heads, dim, .. } => room(s, Buf::Q, rows * (heads * dim)) && room(
            s,
            Buf::Attn,
            rows * (heads * dim),
        ),
        Op::AttnGateApply { n } => room(s, Buf::Attn, n as int) && room(
            s,
            Buf::AttnGate,
            n as int,
        ),
        Op::Add { x, y, n } => room(s, x, n as int) && room(s, y, n as int),
        Op::SiluMul { up, gate, out, n } => room(s, up, n as int) && room(s, gate, n as int)
            && room(s, out, n as int),
        Op::MlaExtractKvLora { rows, rank, rope } => room(s, Buf::MlaKvA, rows * (rank + rope))
            && room(s, Buf::MlaKvLora, rows * rank),
        Op::MlaExtractKRope { rows, rank, rope } => room(s, Buf::MlaKvA, rows * (rank + rope))
            && room(s, Buf::MlaKRope, rows * rope),
        Op::MlaAssembleQ { rows, heads, nope, rope } => room(s, Buf::QNope, rows * (heads * nope))
            && room(s, Buf::QRope, rows * (heads * rope)) && room(
            s,
            Buf::Q,
            rows * (heads * (nope + rope)),
        ),
        Op::MlaStore { rows, heads, nope, rope, v_dim, .. } => room(
            s,
            Buf::MlaKv,
            rows * (heads * (nope + v_dim)),
        ) && room(s, Buf::MlaKRope, rows * rope),
        Op::MlaStorePaged { rows, heads, nope, rope, v_dim, .. } => room(
            s,
            Buf::MlaKv,
            rows * (heads * (nope + v_dim)),
        ) && room(s, Buf::MlaKRope, rows * rope),
        Op::MlaAttn { rows, heads, k_dim, v_dim, .. } => room(s, Buf::Q, rows * (heads * k_dim))
            && room(s, Buf::MlaAttn, rows * (heads * v_dim)),
        Op::MlaAttnPaged { rows, heads, nope, rope, v_dim, .. } => room(
            s,
            Buf::Q,
            rows * (heads * (nope + rope)),
        ) && room(s, Buf::MlaAttn, rows * (heads * v_dim)),
        Op::GdnConvUpdate { rows, conv_dim, .. } => room(s, Buf::GdnQkvPre, rows * conv_dim)
            && room(s, Buf::GdnQkv, rows * conv_dim),
        Op::GdnL2NormQk { rows, conv_dim, .. } => room(s, Buf::GdnQkv, rows * conv_dim),
        Op::GdnStep { rows, v_heads, dim, conv_dim, .. } => room(s, Buf::GdnQkv, rows * conv_dim)
            && room(s, Buf::GdnA, rows * v_heads) && room(s, Buf::GdnB, rows * v_heads) && room(
            s,
            Buf::GdnO,
            rows * (v_heads * dim),
        ),
        Op::GdnGatedNorm { rows, v_heads, dim, .. } => room(s, Buf::GdnO, rows * (v_heads * dim))
            && room(s, Buf::GdnZ, rows * (v_heads * dim)),
        Op::MoeRouter { experts, topk, rows, .. } => room(s, Buf::Router, rows * experts) && room(
            s,
            Buf::ExpIds,
            rows * topk,
        ) && room(s, Buf::ExpW, rows * topk),
        Op::MoeCpu { topk, rows, d, .. } => room(s, Buf::ExpIds, rows * topk) && room(
            s,
            Buf::ExpW,
            rows * topk,
        ) && room(s, Buf::Xn2, rows * d) && room(s, Buf::X, rows * d),
        Op::MoeGroupedGateUp { rows, inter, .. } => room(s, Buf::ExpIds, rows as int) && room(
            s,
            Buf::GateAll,
            rows * inter,
        ) && room(s, Buf::UpAll, rows * inter),
        Op::MoeGroupedDown { rows, d, inter, .. } => room(s, Buf::EhAll, rows * inter) && room(
            s,
            Buf::DownAll,
            rows * d,
        ),
        Op::MoeScatterAll { rows, topk, d } => room(s, Buf::HAcc, rows * d) && room(
            s,
            Buf::DownAll,
            rows * topk * d,
        ),
        Op::Memset { buf, bytes } => bytes <= s.bytes(buf) && s.buffers().contains(buf),
        Op::MoeCountExperts { rows, topk } => room(s, Buf::ExpIds, rows * topk),
        Op::MoePrefixSum { experts } => room(s, Buf::CountsDev, experts as int) && room(
            s,
            Buf::OffsetsDev,
            experts as int,
        ),
        Op::MoeGatherRows { rows, topk, d } => room(s, Buf::Xg, rows * topk * d) && room(
            s,
            Buf::Gw,
            rows * topk,
        ) && room(s, Buf::RowIdx, rows * topk),
        Op::MoeReadCounts { experts } => room(s, Buf::CountsDev, experts as int) && room(
            s,
            Buf::CountsHost,
            experts as int,
        ),
        _ => true,
    }
}

pub open spec fn all_inside(s: Sizes, ops: Seq<Op>) -> bool {
    forall|i: int| 0 <= i < ops.len() ==> inside(s, #[trigger] ops[i])
}

/// The step runs on buffers of these sizes. Low-rank attention assembles its queries, and turns
/// scratch keys along, in the buffers of the plain heads.
pub open spec fn runs_in(step: Step, s: Sizes) -> bool {
    let c = s.cfg;
    &&& step.fits()
    &&& s.wf()
    &&& step.cfg == c
    &&& step.rows <= s.rows
    &&& c.kv_lora_rank > 0 ==> {
        &&& c.qk_nope_head_dim + c.qk_rope_head_dim <= c.head_dim
        &&& c.n_heads * c.qk_rope_head_dim <= c.n_kv_heads * c.head_dim
        &&& c.qk_rope_head_dim <= c.n_kv_heads * c.head_dim
    }
}

proof fn lemma_join(s: Sizes, a: Seq<Op>, b: Seq<Op>)
    requires
        all_inside(s, a),
        all_inside(s, b),
    ensures
        all_inside(s, a + b),
{
    assert forall|i: int| 0 <= i < (a + b).len() implies inside(s, #[trigger] (a + b)[i]) by {
        if i < a.len() {
            assert((a + b)[i] == a[i]);
        } else {
            assert((a + b)[i] == b[i - a.len()]);
        }
    }
}

proof fn lemma_opt(s: Sizes, b: bool, op: Op)
    requires
        b ==> inside(s, op),
    ensures
        all_inside(s, opt(b, op)),
{
}

/// The widths that each buffer holds for every row.
pub open spec fn width_of(s: Sizes, buf: Buf) -> int {
    let c = s.cfg;
    match buf {
        Buf::X | Buf::Xn | Buf::Xn2 | Buf::Proj | Buf::HAcc => c.d_model as int,
        Buf::Q | Buf::Attn | Buf::AttnGate => c.n_heads * c.head_dim,
        Buf::K | Buf::V => c.n_kv_heads * c.head_dim,
        Buf::Qg => 2 * (c.n_heads * c.head_dim),
        Buf::Gate | Buf::Up | Buf::H => if c.intermediate_size >= c.n_shared_experts
            * c.spec_expert_size() {
            c.intermediate_size as int
        } else {
            c.n_shared_experts * c.spec_expert_size()
        },
        Buf::Logits => c.vocab_size as int,
        Buf::MlaQLora | Buf::MlaQLoraN => c.q_lora_rank as int,
        Buf::QNope => c.n_heads * c.qk_nope_head_dim,
        Buf::QRope => c.n_heads * c.qk_rope_head_dim,
        Buf::MlaKvA => c.kv_lora_rank + c.qk_rope_head_dim,
        Buf::MlaKvAN | Buf::MlaKvLora => c.kv_lora_rank as int,
        Buf::MlaKv => c.n_heads * (c.qk_nope_head_dim + c.v_head_dim),
        Buf::MlaKRope => c.qk_rope_head_dim as int,
        Buf::MlaAttn => c.n_heads * c.v_head_dim,
        Buf::GdnQkvPre | Buf::GdnQkv => 2 * (c.gdn_k_heads * c.gdn_head_dim) + c.gdn_v_heads
            * c.gdn_head_dim,
        Buf::GdnZ | Buf::GdnO => c.gdn_v_heads * c.gdn_head_dim,
        Buf::GdnA | Buf::GdnB => c.gdn_v_heads as int,
        Buf::Router => c.num_experts as int,
        Buf::ExpIds | Buf::ExpW | Buf::Gw | Buf::RowIdx => c.spec_topk(),
        Buf::Xg | Buf::DownAll => c.spec_topk() * c.d_model,
        Buf::GateAll | Buf::UpAll | Buf::EhAll => c.spec_topk() * (if c.intermediate_size
            >= c.spec_expert_size() {
            c.intermediate_size as int
        } else {
            c.spec_expert_size() as int
        }),
        _ => 0,
    }
}

/// The staged inputs and the sampled tokens have four bytes for each row, on the host as on the
/// device; the runs have four such numbers for every two rows.
pub proof fn lemma_input_buffers(s: Sizes)
    ensures
        s.bytes(Buf::TokensDev) == s.rows * 4 && s.bytes(Buf::TokensHost) == s.rows * 4,
        s.bytes(Buf::PosDev) == s.rows * 4 && s.bytes(Buf::PosHost) == s.rows * 4,
        s.bytes(Buf::SlotsDev) == s.rows * 4 && s.bytes(Buf::SlotsHost) == s.rows * 4,
        s.bytes(Buf::RunMaskDev) == s.rows * 4 && s.bytes(Buf::RunMaskHost) == s.rows * 4,
        s.bytes(Buf::OutTokDev) == s.rows * 4 && s.bytes(Buf::OutTokHost) == s.rows * 4,
        s.bytes(Buf::RunsDev) == s.bytes(Buf::RunsHost),
        s.rows * 8 <= s.bytes(Buf::RunsDev) < s.rows * 8 + 16,
{
    let b = s.rows as int;
    assert(b * 4 * 1 * 1 * 1 == b * 4) by (nonlinear_arith);
    let n = (b + 1) / 2;
    assert(n * 4 * 4 * 1 * 1 == n * 16) by (nonlinear_arith);
}

/// The state of linear attention has a square of each head, and the rows that its convolution
/// keeps, for every sequence.
pub proof fn lemma_state_buffers(s: Sizes, li: usize)
    ensures
        ({
            let c = s.cfg;
            let wide = 2 * (c.gdn_k_heads * c.gdn_head_dim) + c.gdn_v_heads * c.gdn_head_dim;
            &&& s.bytes(Buf::GdnState(li)) == s.slots * (c.gdn_v_heads * (c.gdn_head_dim
                * c.gdn_head_dim)) * 4
            &&& s.bytes(Buf::GdnConv(li)) == s.slots * (wide * (c.gdn_conv_kernel - 1)) * 4
        }),
{
    let c = s.cfg;
    let (n, h, d) = (s.slots as int, c.gdn_v_heads as int, c.gdn_head_dim as int);
    let (w, k) = (c.spec_conv_dim(), c.gdn_conv_kernel - 1);
    assert(n * h * d * d * 4 == n * (h * (d * d)) * 4) by (nonlinear_arith);
    assert(n * w * k * 4 * 1 == n * (w * k) * 4) by (nonlinear_arith);
}

/// The buffer holds numbers row by row.
pub open spec fn row_buffer(buf: Buf) -> bool {
    match buf {
        Buf::X | Buf::Xn | Buf::Xn2 | Buf::Proj | Buf::HAcc | Buf::Q | Buf::Attn | Buf::AttnGate
        | Buf::K | Buf::V | Buf::Qg | Buf::Gate | Buf::Up | Buf::H | Buf::Logits | Buf::MlaQLora
        | Buf::MlaQLoraN | Buf::QNope | Buf::QRope | Buf::MlaKvA | Buf::MlaKvAN | Buf::MlaKvLora
        | Buf::MlaKv | Buf::MlaKRope | Buf::MlaAttn | Buf::GdnQkvPre | Buf::GdnQkv | Buf::GdnZ
        | Buf::GdnO | Buf::GdnA | Buf::GdnB | Buf::Router | Buf::ExpIds | Buf::ExpW | Buf::Gw
        | Buf::RowIdx | Buf::Xg | Buf::DownAll | Buf::GateAll | Buf::UpAll | Buf::EhAll => true,
        _ => false,
    }
}

/// Every row buffer is as large as the rows of a step at its width.
pub proof fn lemma_row_buffers(s: Sizes, buf: Buf)
    requires
        s.wf(),
        row_buffer(buf),
    ensures
        s.bytes(buf) == s.rows * width_of(s, buf) * 4,
{
    let c = s.cfg;
    let b = s.rows as int;
    let w = width_of(s, buf);
    let f = s.factors(buf);
    let t = c.spec_topk();
    let d = c.d_model as int;
    let m = s.moe_width();
    match buf {
        Buf::Qg => {
            let q = c.spec_nq();
            assert(b * 2 * q * 4 * 1 == b * (2 * q) * 4) by (nonlinear_arith);
        },
        Buf::QNope | Buf::QRope | Buf::MlaKv | Buf::MlaAttn => {
            let (x, y) = (f.1, f.2);
            assert(b * x * y * 4 * 1 == b * (x * y) * 4) by (nonlinear_arith);
        },
        Buf::ExpIds | Buf::ExpW | Buf::Gw | Buf::RowIdx => {
            assert(b * t * 4 * 1 * 1 * 1 == b * t * 4) by (nonlinear_arith);
        },
        Buf::Xg | Buf::DownAll => {
            assert(b * t * d * 4 * 1 * 1 == b * (t * d) * 4) by (nonlinear_arith);
        },
        Buf::GateAll | Buf::UpAll | Buf::EhAll => {
            assert(b * t * m * 4 * 1 * 1 == b * (t * m) * 4) by (nonlinear_arith);
        },
        _ => {
            assert(b * w * 4 * 1 * 1 == b * w * 4) by (nonlinear_arith);
        },
    }
}

/// The model has the buffer: every model those of plain attention and the MLP, the others where the
/// configuration has what they are for.
pub open spec fn present(s: Sizes, buf: Buf) -> bool {
    match buf {
        Buf::X | Buf::Xn | Buf::Xn2 | Buf::Q | Buf::K | Buf::V | Buf::Attn | Buf::Proj | Buf::Gate
        | Buf::Up | Buf::H | Buf::Logits => true,
        Buf::MlaQLora | Buf::MlaQLoraN | Buf::QNope | Buf::QRope | Buf::MlaKvA | Buf::MlaKvAN
        | Buf::MlaKvLora | Buf::MlaKv | Buf::MlaKRope | Buf::MlaAttn => s.cfg.kv_lora_rank > 0,
        Buf::Qg | Buf::AttnGate => s.cfg.attn_output_gate,
        Buf::GdnQkvPre | Buf::GdnQkv | Buf::GdnZ | Buf::GdnA | Buf::GdnB | Buf::GdnO => s.gdn(),
        Buf::Router | Buf::ExpIds | Buf::ExpW | Buf::CountsDev | Buf::MoePosDev | Buf::OffsetsDev
        | Buf::Xg | Buf::Gw | Buf::RowIdx | Buf::HAcc | Buf::GateAll | Buf::UpAll | Buf::EhAll
        | Buf::DownAll | Buf::CountsHost => s.cfg.spec_topk() > 0,
        _ => false,
    }
}

proof fn lemma_in_either(a: Seq<Buf>, b: Seq<Buf>, x: Buf)
    requires
        a.contains(x) || b.contains(x),
    ensures
        (a + b).contains(x),
{
    if a.contains(x) {
        let i = choose|i: int| 0 <= i < a.len() && a[i] == x;
        assert((a + b)[i] == x);
    } else {
        let i = choose|i: int| 0 <= i < b.len() && b[i] == x;
        assert((a + b)[a.len() + i] == x);
    }
}

/// A buffer that the model has is allocated.
pub proof fn lemma_present(s: Sizes, buf: Buf)
    requires
        present(s, buf),
    ensures
        s.buffers().contains(buf),
{
    let a = s.base_buffers();
    let b = crate::buffers::when(s.cfg.kv_lora_rank > 0, s.mla_buffers());
    let c = crate::buffers::when(s.cfg.attn_output_gate, seq![Buf::Qg, Buf::AttnGate]);
    let d = crate::buffers::when(s.gdn(), s.gdn_buffers());
    let e = crate::buffers::when(s.moe(), s.moe_buffers());
    let f = s.state_buffers();
    lemma_listed(s, buf);
    if a.contains(buf) || b.contains(buf) {
        lemma_in_either(a, b, buf);
    }
    if (a + b).contains(buf) || c.contains(buf) {
        lemma_in_either(a + b, c, buf);
    }
    if (a + b + c).contains(buf) || d.contains(buf) {
        lemma_in_either(a + b + c, d, buf);
    }
    if (a + b + c + d).contains(buf) || e.contains(buf) {
        lemma_in_either(a + b + c + d, e, buf);
    }
    lemma_in_either(a + b + c + d + e, f, buf);
}

proof fn lemma_listed(s: Sizes, buf: Buf)
    requires
        present(s, buf),
    ensures
        ({
            ||| s.base_buffers().contains(buf)
            ||| crate::buffers::when(s.cfg.kv_lora_rank > 0, s.mla_buffers()).contains(buf)
            ||| crate::buffers::when(
                s.cfg.attn_output_gate,
                seq![Buf::Qg, Buf::AttnGate],
            ).contains(buf)
            ||| crate::buffers::when(s.gdn(), s.gdn_buffers()).contains(buf)
            ||| crate::buffers::when(s.moe(), s.moe_buffers()).contains(buf)
        }),
{
    let a = s.base_buffers();
    let b = s.mla_buffers();
    let c = seq![Buf::Qg, Buf::AttnGate];
    let d = s.gdn_buffers();
    let e = s.moe_buffers();
    match buf {
        Buf::X => assert(a[10] == buf),
        Buf::Xn => assert(a[11] == buf),
        Buf::Xn2 => assert(a[12] == buf),
        Buf::Q => assert(a[13] == buf),
        Buf::K => assert(a[14] == buf),
        Buf::V => assert(a[15] == buf),
        Buf::Attn => assert(a[16] == buf),
        Buf::Proj => assert(a[17] == buf),
        Buf::Gate => assert(a[18] == buf),
        Buf::Up => assert(a[19] == buf),
        Buf::H => assert(a[20] == buf),
        Buf::Logits => assert(a[21] == buf),
        Buf::MlaQLora => assert(b[0] == buf),
        Buf::MlaQLoraN => assert(b[1] == buf),
        Buf::QNope => assert(b[2] == buf),
        Buf::QRope => assert(b[3] == buf),
        Buf::MlaKvA => assert(b[4] == buf),
        Buf::MlaKvAN => assert(b[5] == buf),
        Buf::MlaKvLora => assert(b[6] == buf),
        Buf::MlaKv => assert(b[7] == buf),
        Buf::MlaKRope => assert(b[8] == buf),
        Buf::MlaAttn => assert(b[9] == buf),
        Buf::Qg => assert(c[0] == buf),
        Buf::AttnGate => assert(c[1] == buf),
        Buf::GdnQkvPre => assert(d[0] == buf),
        Buf::GdnQkv => assert(d[1] == buf),
        Buf::GdnZ => assert(d[2] == buf),
        Buf::GdnA => assert(d[3] == buf),
        Buf::GdnB => assert(d[4] == buf),
        Buf::GdnO => assert(d[5] == buf),
        Buf::Router => assert(e[0] == buf),
        Buf::ExpIds => assert(e[1] == buf),
        Buf::ExpW => assert(e[2] == buf),
        Buf::CountsDev => assert(e[3] == buf),
        Buf::MoePosDev => assert(e[4] == buf),
        Buf::OffsetsDev => assert(e[5] == buf),
        Buf::Xg => assert(e[6] == buf),
        Buf::Gw => assert(e[7] == buf),
        Buf::RowIdx => assert(e[8] == buf),
        Buf::HAcc => assert(e[9] == buf),
        Buf::GateAll => assert(e[10] == buf),
        Buf::UpAll => assert(e[11] == buf),
        Buf::EhAll => assert(e[12] == buf),
        Buf::DownAll => assert(e[13] == buf),
        Buf::CountsHost => assert(e[14] == buf),
        _ => {},
    }
}

/// A row buffer has room for the rows of a step at any width up to its own.
proof fn lemma_room(step: Step, s: Sizes, buf: Buf, w: int)
    requires
        runs_in(step, s),
        row_buffer(buf),
        present(s, buf),
        0 <= w <= width_of(s, buf),
    ensures
        room(s, buf, step.rows * w),
{
    lemma_present(s, buf);
    let b = s.rows as int;
    let r = step.rows as int;
    let m = width_of(s, buf);
    lemma_row_buffers(s, buf);
    assert(0 <= r * w && r * w * 4 <= b * m * 4) by (nonlinear_arith)
        requires
            0 <= r <= b,
            0 <= w <= m,
    ;
}

proof fn lemma_gemm(
    step: Step,
    s: Sizes,
    out: Buf,
    x: Buf,
    li: usize,
    t: Tensor,
    q4: bool,
    n: int,
    k: int,
)
    requires
        runs_in(step, s),
        row_buffer(out),
        row_buffer(x),
        present(s, out),
        present(s, x),
        0 <= n <= width_of(s, out),
        0 <= k <= width_of(s, x),
        n <= i32::MAX,
        k <= i32::MAX,
    ensures
        inside(s, step.gemm(out, x, li, t, q4, n, k)),
{
    lemma_room(step, s, out, n);
    lemma_room(step, s, x, k);
}

impl Step {
    proof fn lemma_mlp_room(self, s: Sizes, li: usize, l: LayerDev)
        requires
            runs_in(self, s),
        ensures
            all_inside(s, self.mlp_ops(li, l)),
    {
        self.lemma_fits();
        let d = self.cfg.d_model as int;
        let w = self.cfg.intermediate_size as int;
        lemma_gemm(self, s, Buf::Gate, Buf::Xn2, li, Tensor::Wg, l.q4_wg, w, d);
        lemma_gemm(self, s, Buf::Up, Buf::Xn2, li, Tensor::Wu, l.q4_wu, w, d);
        lemma_room(self, s, Buf::Gate, w);
        lemma_room(self, s, Buf::Up, w);
        lemma_room(self, s, Buf::H, w);
        lemma_gemm(self, s, Buf::Proj, Buf::H, li, Tensor::Wd, l.q4_wd, d, w);
        lemma_room(self, s, Buf::X, d);
        lemma_room(self, s, Buf::Proj, d);
    }

    proof fn lemma_shared_room(self, s: Sizes, li: usize)
        requires
            runs_in(self, s),
            self.spec_topk() > 0,
        ensures
            all_inside(s, self.shared_ops(li)),
    {
        self.lemma_fits();
        let d = self.cfg.d_model as int;
        let w = self.spec_shared_size();
        lemma_gemm(self, s, Buf::Gate, Buf::Xn2, li, Tensor::SharedWg, false, w, d);
        lemma_gemm(self, s, Buf::Up, Buf::Xn2, li, Tensor::SharedWu, false, w, d);
        lemma_room(self, s, Buf::Gate, w);
        lemma_room(self, s, Buf::Up, w);
        lemma_room(self, s, Buf::H, w);
        lemma_gemm(self, s, Buf::Proj, Buf::H, li, Tensor::SharedWd, false, d, w);
        lemma_room(self, s, Buf::HAcc, d);
        lemma_room(self, s, Buf::Proj, d);
    }

    /// Room for the routed rows of a step.
    proof fn lemma_routed_room(self, s: Sizes)
        requires
            runs_in(self, s),
            self.spec_topk() > 0,
        ensures
            ({
                let t = self.spec_topk();
                let w = self.cfg.spec_expert_size() as int;
                let d = self.cfg.d_model as int;
                &&& room(s, Buf::ExpIds, self.rows * t) && room(s, Buf::ExpW, self.rows * t)
                &&& room(s, Buf::Gw, self.rows * t) && room(s, Buf::RowIdx, self.rows * t)
                &&& room(s, Buf::GateAll, self.rows * t * w) && room(
                    s,
                    Buf::UpAll,
                    self.rows * t * w,
                )
                &&& room(s, Buf::EhAll, self.rows * t * w)
                &&& room(s, Buf::Xg, self.rows * t * d) && room(s, Buf::DownAll, self.rows * t * d)
                &&& room(s, Buf::HAcc, self.rows * d) && room(s, Buf::Xn2, self.rows * d)
                &&& room(s, Buf::X, self.rows * d)
            }),
    {
        self.lemma_fits();
        let t = self.spec_topk();
        let w = self.cfg.spec_expert_size() as int;
        let d = self.cfg.d_model as int;
        let r = self.rows as int;
        let m = s.moe_width();
        assert(r * t * w == r * (t * w) && r * t * d == r * (t * d)) by (nonlinear_arith);
        assert(0 <= t * w <= t * m && 0 <= t * d) by (nonlinear_arith)
            requires
                0 <= t,
                0 <= w <= m,
                0 <= d,
        ;
        lemma_room(self, s, Buf::ExpIds, t);
        lemma_room(self, s, Buf::ExpW, t);
        lemma_room(self, s, Buf::Gw, t);
        lemma_room(self, s, Buf::RowIdx, t);
        lemma_room(self, s, Buf::GateAll, t * w);
        lemma_room(self, s, Buf::UpAll, t * w);
        lemma_room(self, s, Buf::EhAll, t * w);
        lemma_room(self, s, Buf::Xg, t * d);
        lemma_room(self, s, Buf::DownAll, t * d);
        lemma_room(self, s, Buf::HAcc, d);
        lemma_room(self, s, Buf::Xn2, d);
        lemma_room(self, s, Buf::X, d);
    }

    proof fn lemma_grouped_room(self, s: Sizes, li: usize)
        requires
            runs_in(self, s),
            self.spec_topk() > 0,
        ensures
            all_inside(s, self.grouped_ops(li)),
    {
        self.lemma_fits();
        self.lemma_routed_room(s);
    }

    proof fn lemma_segmented_room(self, s: Sizes, li: usize)
        requires
            runs_in(self, s),
            self.spec_topk() > 0,
        ensures
            all_inside(s, self.segmented_ops(li)),
    {
        self.lemma_fits();
        self.lemma_routed_room(s);
        let e = self.cfg.num_experts as int;
        assert(product5((e, 4, 1, 1, 1)) == e * 4) by (nonlinear_arith);
        assert(s.bytes(Buf::CountsDev) == e * 4);
        assert(s.bytes(Buf::MoePosDev) == e * 4);
        assert(s.bytes(Buf::OffsetsDev) == e * 4);
        assert(s.bytes(Buf::CountsHost) == e * 4);
        lemma_present(s, Buf::CountsDev);
        lemma_present(s, Buf::MoePosDev);
        lemma_present(s, Buf::OffsetsDev);
        lemma_present(s, Buf::CountsHost);
    }

    proof fn lemma_moe_room(self, s: Sizes, li: usize, l: LayerDev)
        requires
            runs_in(self, s),
        ensures
            all_inside(s, self.moe_ops(li, l)),
    {
        self.lemma_fits();
        let c = self.cfg;
        let ops = self.moe_ops(li, l);
        if self.spec_topk() as i32 != 0 {
            self.lemma_routed_room(s);
            lemma_gemm(
                self,
                s,
                Buf::Router,
                Buf::Xn2,
                li,
                Tensor::MoeRouter,
                false,
                c.num_experts as int,
                c.d_model as int,
            );
            lemma_room(self, s, Buf::Router, c.num_experts as int);
            let start = seq![ops[0], ops[1]];
            assert(all_inside(s, start));
            if self.offloaded() {
                assert(ops =~= start + seq![ops[2]]);
                lemma_join(s, start, seq![ops[2]]);
            } else {
                let ready = opt(self.prefetch, Op::PrefetchReady { layer: li });
                let experts = if self.grouped() {
                    self.grouped_ops(li)
                } else {
                    self.segmented_ops(li)
                };
                let shared = if l.has_shared {
                    self.shared_ops(li)
                } else {
                    Seq::empty()
                };
                let last = seq![self.add_residual(Buf::X, Buf::HAcc)];
                self.lemma_grouped_room(s, li);
                self.lemma_segmented_room(s, li);
                self.lemma_shared_room(s, li);
                lemma_join(s, ready, experts);
                lemma_join(s, ready + experts, shared);
                lemma_join(s, ready + experts + shared, last);
                lemma_join(s, start, ready + experts + shared + last);
                assert(ops =~= start + (ready + experts + shared + last));
            }
        }
    }

    proof fn lemma_linear_room(self, s: Sizes, li: usize, l: LayerDev)
        requires
            runs_in(self, s),
            s.gdn(),
        ensures
            all_inside(s, self.gdn_ops(li, l)),
    {
        self.lemma_fits();
        let c = self.cfg;
        let d = c.d_model as int;
        let vd = c.spec_gdn_value_dim();
        let cd = self.spec_conv_dim();
        let vh = c.gdn_v_heads as int;
        lemma_gemm(self, s, Buf::GdnQkvPre, Buf::Xn, li, Tensor::GdnInQkv, l.q4_gdn_in_qkv, cd, d);
        lemma_gemm(self, s, Buf::GdnZ, Buf::Xn, li, Tensor::GdnInZ, l.q4_gdn_in_z, vd, d);
        lemma_gemm(self, s, Buf::GdnA, Buf::Xn, li, Tensor::GdnInA, false, vh, d);
        lemma_gemm(self, s, Buf::GdnB, Buf::Xn, li, Tensor::GdnInB, false, vh, d);
        lemma_room(self, s, Buf::GdnQkvPre, cd);
        lemma_room(self, s, Buf::GdnQkv, cd);
        lemma_room(self, s, Buf::GdnA, vh);
        lemma_room(self, s, Buf::GdnB, vh);
        lemma_room(self, s, Buf::GdnO, vd);
        lemma_room(self, s, Buf::GdnZ, vd);
        lemma_gemm(self, s, Buf::Proj, Buf::GdnO, li, Tensor::GdnOut, l.q4_gdn_out, d, vd);
        lemma_room(self, s, Buf::X, d);
        lemma_room(self, s, Buf::Proj, d);
    }

    #[verifier::rlimit(40)]
    proof fn lemma_low_rank_project_room(self, s: Sizes, li: usize)
        requires
            runs_in(self, s),
            self.cfg.kv_lora_rank > 0,
        ensures
            all_inside(s, self.mla_project_ops(li)),
    {
        self.lemma_fits();
        let c = self.cfg;
        let d = c.d_model as int;
        let h = c.n_heads as int;
        let nope = c.qk_nope_head_dim as int;
        let rope = c.qk_rope_head_dim as int;
        let v = c.v_head_dim as int;
        let kvlr = c.kv_lora_rank as int;
        let low_rank = c.q_lora_rank > 0;
        let q_k = if low_rank {
            c.q_lora_rank as int
        } else {
            d
        };
        let q_src = if low_rank {
            Buf::MlaQLoraN
        } else {
            Buf::Xn
        };
        let hd = c.head_dim as int;
        assert(0 <= h * (nope + rope) <= h * hd) by (nonlinear_arith)
            requires
                0 <= h,
                0 <= nope + rope <= hd,
        ;
        let one = 1int;
        assert(one * rope == rope) by (nonlinear_arith)
            requires
                one == 1,
        ;
        let a = self.mla_project_ops(li);
        let k: int = if low_rank {
            2
        } else {
            0
        };
        let narrow = a.subrange(0, k);
        let first = a.subrange(k, k + 4);
        let rest = a.subrange(k + 4, a.len() as int);
        assert(a =~= narrow + first + rest);
        assert(all_inside(s, narrow)) by {
            if low_rank {
                lemma_gemm(self, s, Buf::MlaQLora, Buf::Xn, li, Tensor::MlaQA, false, q_k, d);
                lemma_room(self, s, Buf::MlaQLora, q_k);
                lemma_room(self, s, Buf::MlaQLoraN, q_k);
            }
        }
        assert(all_inside(s, first)) by {
            lemma_gemm(self, s, Buf::QNope, q_src, li, Tensor::MlaQB, false, h * nope, q_k);
            lemma_gemm(self, s, Buf::QRope, q_src, li, Tensor::MlaQRope, false, h * rope, q_k);
            lemma_room(self, s, Buf::QRope, h * rope);
            lemma_room(self, s, Buf::K, h * rope);
            lemma_gemm(self, s, Buf::MlaKvA, Buf::Xn, li, Tensor::MlaKvA, false, kvlr + rope, d);
        }
        assert(all_inside(s, rest)) by {
            lemma_room(self, s, Buf::QNope, h * nope);
            lemma_room(self, s, Buf::QRope, h * rope);
            lemma_room(self, s, Buf::MlaKvA, kvlr + rope);
            lemma_room(self, s, Buf::MlaKvLora, kvlr);
            lemma_room(self, s, Buf::MlaKvAN, kvlr);
            lemma_room(self, s, Buf::MlaKRope, rope);
            lemma_room(self, s, Buf::V, rope);
            lemma_gemm(
                self,
                s,
                Buf::MlaKv,
                Buf::MlaKvAN,
                li,
                Tensor::MlaKvB,
                false,
                h * (nope + v),
                kvlr,
            );
            lemma_room(self, s, Buf::Q, h * (nope + rope));
        }
        lemma_join(s, narrow, first);
        lemma_join(s, narrow + first, rest);
    }

    proof fn lemma_low_rank_attend_room(self, s: Sizes, li: usize)
        requires
            runs_in(self, s),
            self.cfg.kv_lora_rank > 0,
        ensures
            all_inside(s, self.mla_attend_ops(li)),
    {
        self.lemma_fits();
        let c = self.cfg;
        let d = c.d_model as int;
        let h = c.n_heads as int;
        let nope = c.qk_nope_head_dim as int;
        let rope = c.qk_rope_head_dim as int;
        let v = c.v_head_dim as int;
        let hd = c.head_dim as int;
        assert(0 <= h * (nope + rope) <= h * hd) by (nonlinear_arith)
            requires
                0 <= h,
                0 <= nope + rope <= hd,
        ;
        lemma_room(self, s, Buf::MlaKv, h * (nope + v));
        lemma_room(self, s, Buf::MlaKRope, rope);
        lemma_room(self, s, Buf::Q, h * (nope + rope));
        lemma_room(self, s, Buf::MlaAttn, h * v);
        lemma_gemm(self, s, Buf::Proj, Buf::MlaAttn, li, Tensor::MlaO, false, d, h * v);
        lemma_room(self, s, Buf::X, d);
        lemma_room(self, s, Buf::Proj, d);
    }

    /// Room for what full attention keeps of each row.
    proof fn lemma_heads_room(self, s: Sizes)
        requires
            runs_in(self, s),
        ensures
            ({
                let nq = self.spec_nq();
                let nkv = self.spec_nkv();
                let d = self.cfg.d_model as int;
                &&& room(s, Buf::Xn, self.rows * d) && room(s, Buf::X, self.rows * d)
                &&& room(s, Buf::Proj, self.rows * d)
                &&& room(s, Buf::Q, self.rows * nq) && room(s, Buf::Attn, self.rows * nq)
                &&& self.cfg.attn_output_gate ==> room(s, Buf::Qg, self.rows * (2 * nq)) && room(
                    s,
                    Buf::AttnGate,
                    self.rows * nq,
                )
                &&& room(s, Buf::K, self.rows * nkv) && room(s, Buf::V, self.rows * nkv)
            }),
    {
        self.lemma_fits();
        let d = self.cfg.d_model as int;
        let nq = self.spec_nq();
        let nkv = self.spec_nkv();
        lemma_room(self, s, Buf::Xn, d);
        lemma_room(self, s, Buf::X, d);
        lemma_room(self, s, Buf::Proj, d);
        if self.cfg.attn_output_gate {
            lemma_room(self, s, Buf::Qg, 2 * nq);
            lemma_room(self, s, Buf::AttnGate, nq);
        }
        lemma_room(self, s, Buf::Q, nq);
        lemma_room(self, s, Buf::Attn, nq);
        lemma_room(self, s, Buf::K, nkv);
        lemma_room(self, s, Buf::V, nkv);
    }

    proof fn lemma_qkv_room(self, s: Sizes, li: usize, l: LayerDev)
        requires
            runs_in(self, s),
        ensures
            all_inside(s, self.qkv_ops(li, l)),
    {
        self.lemma_fits();
        self.lemma_heads_room(s);
    }

    proof fn lemma_rotate_room(self, s: Sizes, li: usize, l: LayerDev)
        requires
            runs_in(self, s),
        ensures
            all_inside(s, self.rotate_ops(li, l)),
    {
        self.lemma_fits();
        self.lemma_heads_room(s);
        let c = self.cfg;
        let rows = self.rows;
        let heads = c.n_heads as i32;
        let kv_heads = c.n_kv_heads as i32;
        let dim = c.head_dim as i32;
        let split = Op::QgSplit { rows, heads, dim };
        let bias = |x: Buf, t: Tensor, cols: int| Op::AddBias {
            x,
            bias: layer_weight(li, t, DeviceCopy::F32),
            rows,
            cols: cols as i32,
        };
        let bias_q = bias(Buf::Q, Tensor::Bq, self.spec_nq());
        let bias_k = bias(Buf::K, Tensor::Bk, self.spec_nkv());
        let bias_v = bias(Buf::V, Tensor::Bv, self.spec_nkv());
        let norm = Op::QkNorm { layer: li, rows, heads, kv_heads, dim };
        let turn = Op::Rope {
            q: Buf::Q,
            k: Buf::K,
            rows,
            heads,
            kv_heads,
            dim,
            rot: self.rotary_dim as i32,
        };
        lemma_opt(s, c.attn_output_gate, split);
        lemma_opt(s, l.has_bq, bias_q);
        lemma_opt(s, l.has_bk, bias_k);
        lemma_opt(s, l.has_bv, bias_v);
        lemma_opt(s, l.has_q_norm, norm);
        let o1 = opt(c.attn_output_gate, split);
        let o2 = opt(l.has_bq, bias_q);
        let o3 = opt(l.has_bk, bias_k);
        let o4 = opt(l.has_bv, bias_v);
        let o5 = opt(l.has_q_norm, norm);
        let o6 = seq![turn];
        lemma_join(s, o1, o2);
        lemma_join(s, o1 + o2, o3);
        lemma_join(s, o1 + o2 + o3, o4);
        lemma_join(s, o1 + o2 + o3 + o4, o5);
        assert(all_inside(s, o6));
        lemma_join(s, o1 + o2 + o3 + o4 + o5, o6);
    }

    proof fn lemma_attend_room(self, s: Sizes, li: usize, runs: Seq<Run>)
        requires
            runs_in(self, s),
        ensures
            all_inside(s, self.attend_ops(li, runs)),
    {
        self.lemma_fits();
        self.lemma_heads_room(s);
        let e = self.attend_ops(li, runs);
        let first = e.subrange(0, 3);
        let rest = e.subrange(3, e.len() as int);
        assert(e =~= first + rest);
        assert(all_inside(s, first));
        assert(all_inside(s, rest)) by {
            if self.spec_half() && !self.paged {
                assert(rest =~= self.run_ops(li, runs));
            } else {
                assert(rest =~= Seq::empty());
            }
        }
        lemma_join(s, first, rest);
    }

    proof fn lemma_attn_out_room(self, s: Sizes, li: usize, l: LayerDev)
        requires
            runs_in(self, s),
        ensures
            all_inside(s, self.attn_out_ops(li, l)),
    {
        self.lemma_fits();
        self.lemma_heads_room(s);
    }

    proof fn lemma_attention_room(self, s: Sizes, li: usize, l: LayerDev, runs: Seq<Run>)
        requires
            runs_in(self, s),
            l.has_gdn ==> s.gdn(),
        ensures
            all_inside(s, self.attention_ops(li, l, runs)),
    {
        if self.cfg.kv_lora_rank > 0 {
            self.lemma_low_rank_project_room(s, li);
            self.lemma_low_rank_attend_room(s, li);
            lemma_join(s, self.mla_project_ops(li), self.mla_attend_ops(li));
        } else if l.has_gdn {
            self.lemma_linear_room(s, li, l);
        } else {
            self.lemma_qkv_room(s, li, l);
            self.lemma_rotate_room(s, li, l);
            self.lemma_attend_room(s, li, runs);
            self.lemma_attn_out_room(s, li, l);
            let (a, b, c, e) = (
                self.qkv_ops(li, l),
                self.rotate_ops(li, l),
                self.attend_ops(li, runs),
                self.attn_out_ops(li, l),
            );
            lemma_join(s, a, b);
            lemma_join(s, a + b, c);
            lemma_join(s, a + b + c, e);
        }
    }

    proof fn lemma_first_room(self, s: Sizes, li: usize, l: LayerDev, runs: Seq<Run>)
        requires
            runs_in(self, s),
            l.has_gdn ==> s.gdn(),
        ensures
            all_inside(s, self.first_half_ops(li, l, runs)),
    {
        self.lemma_fits();
        let d = self.cfg.d_model as int;
        lemma_room(self, s, Buf::X, d);
        lemma_room(self, s, Buf::Xn, d);
        self.lemma_attention_room(s, li, l, runs);
        let start = Op::Record { point: crate::device::ProfPoint::LayerStart(li) };
        let fetch = Op::PrefetchLayerBegin { layer: li };
        let norm = self.layer_norm(Buf::X, li, Tensor::RmsAttn, Buf::Xn, d);
        let done = Op::Record { point: crate::device::ProfPoint::AttnDone(li) };
        let dump = Op::DumpMid { layer: li, rows: self.rows, d: self.spec_d() };
        let o1 = opt(self.profiled(li), start);
        let o2 = opt(self.prefetch, fetch);
        let o3 = seq![norm];
        let o4 = self.attention_ops(li, l, runs);
        let o5 = opt(self.profiled(li), done);
        let o6 = opt(self.layer_dump, dump);
        assert(inside(s, norm));
        assert(all_inside(s, o3));
        lemma_opt(s, self.profiled(li), start);
        lemma_opt(s, self.prefetch, fetch);
        lemma_opt(s, self.profiled(li), done);
        lemma_opt(s, self.layer_dump, dump);
        lemma_join(s, o1, o2);
        lemma_join(s, o1 + o2, o3);
        lemma_join(s, o1 + o2 + o3, o4);
        lemma_join(s, o1 + o2 + o3 + o4, o5);
        lemma_join(s, o1 + o2 + o3 + o4 + o5, o6);
    }

    proof fn lemma_second_room(self, s: Sizes, li: usize, l: LayerDev)
        requires
            runs_in(self, s),
        ensures
            all_inside(s, self.second_half_ops(li, l)),
    {
        self.lemma_fits();
        let d = self.cfg.d_model as int;
        lemma_room(self, s, Buf::X, d);
        lemma_room(self, s, Buf::Xn2, d);
        self.lemma_mlp_room(s, li, l);
        self.lemma_moe_room(s, li, l);
        let one = self.layer_norm(Buf::X, li, Tensor::RmsMlp, Buf::Xn2, d);
        let norm = seq![one];
        let body = if self.is_moe(l) {
            self.moe_ops(li, l)
        } else {
            self.mlp_ops(li, l)
        };
        let dumps = self.dump_ops(li, l);
        let end_mark = Op::Record { point: crate::device::ProfPoint::MlpDone(li) };
        let done = opt(self.profiled(li), end_mark);
        let end = opt(self.prefetch, Op::PrefetchLayerEnd { layer: li });
        assert(inside(s, one));
        assert(all_inside(s, norm));
        self.lemma_dumps_room(s, li, l);
        lemma_opt(s, self.profiled(li), end_mark);
        lemma_opt(s, self.prefetch, Op::PrefetchLayerEnd { layer: li });
        lemma_join(s, norm, body);
        lemma_join(s, norm + body, dumps);
        lemma_join(s, norm + body + dumps, done);
        lemma_join(s, norm + body + dumps + done, end);
    }

    proof fn lemma_dumps_room(self, s: Sizes, li: usize, l: LayerDev)
        ensures
            all_inside(s, self.dump_ops(li, l)),
    {
        let trace = self.trace_ops(l);
        assert(forall|j: int| 0 <= j < trace.len() ==> #[trigger] trace[j] is DumpMoe);
    }

    proof fn lemma_layer_room(self, s: Sizes, li: usize, l: LayerDev, runs: Seq<Run>)
        requires
            runs_in(self, s),
            l.has_gdn ==> s.gdn(),
        ensures
            all_inside(s, self.layer_ops(li, l, runs)),
    {
        self.lemma_first_room(s, li, l, runs);
        self.lemma_second_room(s, li, l);
        lemma_join(s, self.first_half_ops(li, l, runs), self.second_half_ops(li, l));
    }

    proof fn lemma_layers_room(self, s: Sizes, layers: Seq<LayerDev>, runs: Seq<Run>, n: nat)
        requires
            runs_in(self, s),
            n <= layers.len(),
            forall|i: int| 0 <= i < layers.len() && (#[trigger] layers[i]).has_gdn ==> s.gdn(),
        ensures
            all_inside(s, self.layers_ops(layers, runs, n)),
        decreases n,
    {
        if n > 0 {
            self.lemma_layers_room(s, layers, runs, (n - 1) as nat);
            self.lemma_layer_room(s, (n - 1) as usize, layers[n - 1], runs);
            lemma_join(
                s,
                self.layers_ops(layers, runs, (n - 1) as nat),
                self.layer_ops((n - 1) as usize, layers[n - 1], runs),
            );
        }
    }

    /// Every operation of a step finds the buffers that it touches allocated and stays inside
    /// them, for every model whose buffers were sized for at least as many rows, and for linear
    /// attention where a layer has it.
    pub proof fn lemma_forward_room(self, s: Sizes, layers: Seq<LayerDev>, runs: Seq<Run>)
        requires
            runs_in(self, s),
            forall|i: int| 0 <= i < layers.len() && (#[trigger] layers[i]).has_gdn ==> s.gdn(),
        ensures
            all_inside(s, self.forward_ops(layers, runs)),
    {
        self.lemma_fits();
        let d = self.cfg.d_model as int;
        let n = layers.len();
        lemma_room(self, s, Buf::X, d);
        lemma_room(self, s, Buf::Xn, d);
        lemma_room(self, s, Buf::Logits, self.cfg.vocab_size as int);
        let head = self.head_ops();
        let tail = self.tail_ops();
        assert(all_inside(s, head));
        assert(all_inside(s, tail));
        self.lemma_layers_room(s, layers, runs, n);
        lemma_join(s, head, self.layers_ops(layers, runs, n));
        lemma_join(s, head + self.layers_ops(layers, runs, n), tail);
    }
}

} // verus!
