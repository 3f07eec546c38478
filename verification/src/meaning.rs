//! What the operations of a step mean: each turns the values in the buffers that it reads into
//! the values of the buffers that it writes.

use vstd::prelude::*;

use crate::config::F32Bits;
use crate::device::Buf;
use crate::device::DeviceCopy;
use crate::device::GemmPath;
use crate::device::Op;
use crate::device::Run;
use crate::device::Tensor;
use crate::device::Weight;

verus! {

/// A weight tensor, in whatever form it lies on the device.
pub struct Param {
    pub layer: Option<usize>,
    pub tensor: Tensor,
}

/// How a cache is laid out: its precision, and the positions of a slot or of a page.
pub struct Layout {
    pub half: bool,
    pub paged: bool,
    pub span: int,
}

/// How numbers come from other numbers.
pub enum Term {
    /// Nothing is known of the numbers.
    Unknown,
    Zero,
    /// The embedding rows of the step's tokens.
    Embedded,
    Norm(Param, Box<Term>),
    /// Rows times the transposed weight.
    Product(Param, Box<Term>),
    Sum(Box<Term>, Box<Term>),
    /// `silu(gate) * up`.
    Gated { gate: Box<Term>, up: Box<Term> },
    Biased(Param, Box<Term>),
    HeadNorm(Param, Box<Term>),
    /// Rotated by the rows' positions.
    Rotated { dim: int, rot: int, x: Box<Term> },
    /// The queries and the gates of a doubled projection.
    QueryHalf(Box<Term>),
    GateHalf(Box<Term>),
    /// A cache after the rows were stored in it.
    Stored { layout: Layout, before: Box<Term>, rows: Box<Term> },
    Attention { heads: int, kv_heads: int, q: Box<Term>, k: Box<Term>, v: Box<Term> },
    /// Attention with the rows of one run computed together.
    RunAttention {
        run: Run,
        rest: Box<Term>,
        heads: int,
        kv_heads: int,
        q: Box<Term>,
        k: Box<Term>,
        v: Box<Term>,
    },
    /// Multiplied by the sigmoid of the gates.
    SigmoidGated { x: Box<Term>, gates: Box<Term> },
    /// Latent and rotary part of the compressed keys and values.
    LatentPart(Box<Term>),
    RotaryPart(Box<Term>),
    /// Each head's plain part followed by its rotary part.
    Joined { plain: Box<Term>, rotary: Box<Term> },
    LatentKeys { layout: Layout, before: Box<Term>, kv: Box<Term>, rotary: Box<Term> },
    LatentValues { layout: Layout, before: Box<Term>, kv: Box<Term> },
    LatentAttention { heads: int, q: Box<Term>, k: Box<Term>, v: Box<Term> },
    /// Causal convolution over the rows and the kept ones, and what is kept after it.
    Convolved { weight: Param, kept: Box<Term>, x: Box<Term> },
    Kept { before: Box<Term>, x: Box<Term> },
    UnitHeads { dim: int, x: Box<Term> },
    /// The recurrence's output and its state after the rows.
    Recurred { layer: usize, state: Box<Term>, qkv: Box<Term>, a: Box<Term>, b: Box<Term> },
    RecurredState { layer: usize, state: Box<Term>, qkv: Box<Term>, a: Box<Term>, b: Box<Term> },
    GatedNorm { weight: Param, x: Box<Term>, z: Box<Term> },
    /// The experts with the best scores, and their weights.
    Chosen(Box<Term>),
    ChoiceWeights { norm: bool, scale: F32Bits, scores: Box<Term> },
    /// Each row times the weight of each of its experts.
    ExpertIn { weight: Param, ids: Box<Term>, x: Box<Term> },
    /// Each routed row times the weight of its expert.
    ExpertOut { weight: Param, ids: Box<Term>, x: Box<Term> },
    /// For each row the sum of its routed rows, each times its weight.
    WeightedSum { weights: Box<Term>, x: Box<Term> },
    /// Routed rows of each expert, their running total, and rows packed by expert.
    Counted(Box<Term>),
    Offsets(Box<Term>),
    Packed { ids: Box<Term>, x: Box<Term> },
    PackedSource(Box<Term>),
}

/// A matrix of numbers.
pub struct Matrix {
    pub rows: int,
    pub cols: int,
    pub term: Term,
}

pub open spec fn unknown() -> Matrix {
    Matrix { rows: 0, cols: 0, term: Term::Unknown }
}

pub open spec fn has_shape(x: Matrix, rows: int, cols: int) -> bool {
    x.rows == rows && x.cols == cols
}

pub open spec fn same_shape(x: Matrix, y: Matrix) -> bool {
    x.rows == y.rows && x.cols == y.cols
}

pub open spec fn embedded(rows: int, cols: int) -> Matrix {
    Matrix { rows, cols, term: Term::Embedded }
}

pub open spec fn normed(x: Matrix, w: Param) -> Matrix {
    Matrix { term: Term::Norm(w, Box::new(x.term)), ..x }
}

pub open spec fn product(x: Matrix, w: Param, outputs: int) -> Matrix {
    Matrix { rows: x.rows, cols: outputs, term: Term::Product(w, Box::new(x.term)) }
}

pub open spec fn plus(x: Matrix, y: Matrix) -> Matrix {
    Matrix { term: Term::Sum(Box::new(x.term), Box::new(y.term)), ..x }
}

pub open spec fn gated(gate: Matrix, up: Matrix) -> Matrix {
    Matrix { term: Term::Gated { gate: Box::new(gate.term), up: Box::new(up.term) }, ..gate }
}

pub open spec fn biased(x: Matrix, w: Param) -> Matrix {
    Matrix { term: Term::Biased(w, Box::new(x.term)), ..x }
}

pub open spec fn head_normed(x: Matrix, w: Param) -> Matrix {
    Matrix { term: Term::HeadNorm(w, Box::new(x.term)), ..x }
}

pub open spec fn rotated(x: Matrix, dim: int, rot: int) -> Matrix {
    Matrix { term: Term::Rotated { dim, rot, x: Box::new(x.term) }, ..x }
}

pub open spec fn query_half(x: Matrix, cols: int) -> Matrix {
    Matrix { rows: x.rows, cols, term: Term::QueryHalf(Box::new(x.term)) }
}

pub open spec fn gate_half(x: Matrix, cols: int) -> Matrix {
    Matrix { rows: x.rows, cols, term: Term::GateHalf(Box::new(x.term)) }
}

/// A cache after `rows` were stored in it; its columns are those of the rows.
pub open spec fn stored(before: Matrix, rows: Matrix, layout: Layout) -> Matrix {
    Matrix {
        rows: layout.span,
        cols: rows.cols,
        term: Term::Stored {
            layout,
            before: Box::new(before.term),
            rows: Box::new(rows.term),
        },
    }
}

pub open spec fn attention(q: Matrix, k: Matrix, v: Matrix, heads: int, kv_heads: int) -> Matrix {
    Matrix {
        term: Term::Attention {
            heads,
            kv_heads,
            q: Box::new(q.term),
            k: Box::new(k.term),
            v: Box::new(v.term),
        },
        ..q
    }
}

pub open spec fn run_attention(
    rest: Matrix,
    run: Run,
    q: Matrix,
    k: Matrix,
    v: Matrix,
    heads: int,
    kv_heads: int,
) -> Matrix {
    Matrix {
        term: Term::RunAttention {
            run,
            rest: Box::new(rest.term),
            heads,
            kv_heads,
            q: Box::new(q.term),
            k: Box::new(k.term),
            v: Box::new(v.term),
        },
        ..rest
    }
}

pub open spec fn sigmoid_gated(x: Matrix, gates: Matrix) -> Matrix {
    Matrix {
        term: Term::SigmoidGated { x: Box::new(x.term), gates: Box::new(gates.term) },
        ..x
    }
}

pub open spec fn latent_part(x: Matrix, rank: int) -> Matrix {
    Matrix { rows: x.rows, cols: rank, term: Term::LatentPart(Box::new(x.term)) }
}

pub open spec fn rotary_part(x: Matrix, rope: int) -> Matrix {
    Matrix { rows: x.rows, cols: rope, term: Term::RotaryPart(Box::new(x.term)) }
}

pub open spec fn joined(plain: Matrix, rotary: Matrix, cols: int) -> Matrix {
    Matrix {
        rows: plain.rows,
        cols,
        term: Term::Joined { plain: Box::new(plain.term), rotary: Box::new(rotary.term) },
    }
}

pub open spec fn latent_keys(
    before: Matrix,
    kv: Matrix,
    rotary: Matrix,
    cols: int,
    layout: Layout,
) -> Matrix {
    Matrix {
        rows: layout.span,
        cols,
        term: Term::LatentKeys {
            layout,
            before: Box::new(before.term),
            kv: Box::new(kv.term),
            rotary: Box::new(rotary.term),
        },
    }
}

pub open spec fn latent_values(before: Matrix, kv: Matrix, cols: int, layout: Layout) -> Matrix {
    Matrix {
        rows: layout.span,
        cols,
        term: Term::LatentValues {
            layout,
            before: Box::new(before.term),
            kv: Box::new(kv.term),
        },
    }
}

pub open spec fn latent_attention(q: Matrix, k: Matrix, v: Matrix, heads: int) -> Matrix {
    Matrix {
        rows: q.rows,
        cols: v.cols,
        term: Term::LatentAttention {
            heads,
            q: Box::new(q.term),
            k: Box::new(k.term),
            v: Box::new(v.term),
        },
    }
}

pub open spec fn convolved(x: Matrix, before: Matrix, w: Param) -> Matrix {
    Matrix {
        term: Term::Convolved {
            weight: w,
            kept: Box::new(before.term),
            x: Box::new(x.term),
        },
        ..x
    }
}

/// The last `rows` rows, for the next convolution.
pub open spec fn kept(before: Matrix, x: Matrix, rows: int) -> Matrix {
    Matrix {
        rows,
        cols: x.cols,
        term: Term::Kept { before: Box::new(before.term), x: Box::new(x.term) },
    }
}

pub open spec fn unit_heads(x: Matrix, dim: int) -> Matrix {
    Matrix { term: Term::UnitHeads { dim, x: Box::new(x.term) }, ..x }
}

pub open spec fn recurred(
    layer: usize,
    state: Matrix,
    qkv: Matrix,
    a: Matrix,
    b: Matrix,
    cols: int,
) -> Matrix {
    Matrix {
        rows: qkv.rows,
        cols,
        term: Term::Recurred {
            layer,
            state: Box::new(state.term),
            qkv: Box::new(qkv.term),
            a: Box::new(a.term),
            b: Box::new(b.term),
        },
    }
}

pub open spec fn recurred_state(
    layer: usize,
    state: Matrix,
    qkv: Matrix,
    a: Matrix,
    b: Matrix,
) -> Matrix {
    Matrix {
        term: Term::RecurredState {
            layer,
            state: Box::new(state.term),
            qkv: Box::new(qkv.term),
            a: Box::new(a.term),
            b: Box::new(b.term),
        },
        ..state
    }
}

pub open spec fn gated_norm(x: Matrix, z: Matrix, w: Param) -> Matrix {
    Matrix {
        term: Term::GatedNorm { weight: w, x: Box::new(x.term), z: Box::new(z.term) },
        ..x
    }
}

pub open spec fn chosen(scores: Matrix, topk: int) -> Matrix {
    Matrix { rows: scores.rows, cols: topk, term: Term::Chosen(Box::new(scores.term)) }
}

pub open spec fn choice_weights(scores: Matrix, topk: int, norm: bool, scale: F32Bits) -> Matrix {
    Matrix {
        rows: scores.rows,
        cols: topk,
        term: Term::ChoiceWeights { norm, scale, scores: Box::new(scores.term) },
    }
}

pub open spec fn expert_in(x: Matrix, ids: Matrix, w: Param, outputs: int) -> Matrix {
    Matrix {
        rows: ids.rows * ids.cols,
        cols: outputs,
        term: Term::ExpertIn { weight: w, ids: Box::new(ids.term), x: Box::new(x.term) },
    }
}

pub open spec fn expert_out(x: Matrix, ids: Matrix, w: Param, outputs: int) -> Matrix {
    Matrix {
        rows: x.rows,
        cols: outputs,
        term: Term::ExpertOut { weight: w, ids: Box::new(ids.term), x: Box::new(x.term) },
    }
}

pub open spec fn weighted_sum(x: Matrix, weights: Matrix) -> Matrix {
    Matrix {
        rows: weights.rows,
        cols: x.cols,
        term: Term::WeightedSum { weights: Box::new(weights.term), x: Box::new(x.term) },
    }
}

/// What the experts of `ids` make of the rows of `x`: for each row the sum over its experts, each
/// times its weight, of the `MoeWd` projection of `silu(gate) * up`, where `gate` is the `MoeWg`
/// projection and `up` the `MoeWu` projection.
pub open spec fn routed(x: Matrix, ids: Matrix, weights: Matrix, layer: usize, d: int) -> Matrix {
    let through = |tensor: Tensor| Term::ExpertIn {
        weight: Param { layer: Some(layer), tensor },
        ids: Box::new(ids.term),
        x: Box::new(x.term),
    };
    let active = Term::Gated {
        gate: Box::new(through(Tensor::MoeWg)),
        up: Box::new(through(Tensor::MoeWu)),
    };
    let down = Term::ExpertOut {
        weight: Param { layer: Some(layer), tensor: Tensor::MoeWd },
        ids: Box::new(ids.term),
        x: Box::new(active),
    };
    Matrix {
        rows: x.rows,
        cols: d,
        term: Term::WeightedSum { weights: Box::new(weights.term), x: Box::new(down) },
    }
}

/// Bytes of zeros, in one row.
pub open spec fn zeros(bytes: int) -> Matrix {
    Matrix { rows: 1, cols: bytes, term: Term::Zero }
}

pub open spec fn counted(ids: Matrix, experts: int) -> Matrix {
    Matrix { rows: 1, cols: experts, term: Term::Counted(Box::new(ids.term)) }
}

pub open spec fn offsets(counts: Matrix) -> Matrix {
    Matrix { term: Term::Offsets(Box::new(counts.term)), ..counts }
}

pub open spec fn packed(x: Matrix, ids: Matrix, cols: int) -> Matrix {
    Matrix {
        rows: ids.rows * ids.cols,
        cols,
        term: Term::Packed { ids: Box::new(ids.term), x: Box::new(x.term) },
    }
}

pub open spec fn packed_source(ids: Matrix) -> Matrix {
    Matrix {
        rows: ids.rows * ids.cols,
        cols: 1,
        term: Term::PackedSource(Box::new(ids.term)),
    }
}

/// The buffers of a device and what they hold.
pub type Buffers = Map<Buf, Matrix>;

pub open spec fn when(b: bool, v: Matrix) -> Matrix {
    if b {
        v
    } else {
        unknown()
    }
}

/// The form of the weights that a projection multiplies with.
pub open spec fn multiplies(path: GemmPath, copy: DeviceCopy) -> bool {
    match copy {
        DeviceCopy::F32 => path == GemmPath::BatchedF32,
        DeviceCopy::F16 => path == GemmPath::GemvF16 || path == GemmPath::BatchedF16,
        DeviceCopy::Q4 => path == GemmPath::GemvQ4,
    }
}

pub open spec fn param(w: Weight) -> Param {
    Param { layer: w.layer, tensor: w.tensor }
}

pub open spec fn layer_param(layer: usize, tensor: Tensor) -> Param {
    Param { layer: Some(layer), tensor }
}

pub open spec fn slots(half: bool, max_seq: i32) -> Layout {
    Layout { half, paged: false, span: max_seq as int }
}

pub open spec fn pages(half: bool, tokens: i32) -> Layout {
    Layout { half, paged: true, span: tokens as int }
}

/// The value is a cache of that layout.
pub open spec fn laid_out(x: Matrix, layout: Layout) -> bool {
    match x.term {
        Term::Stored { layout: l, .. } => l == layout,
        Term::LatentKeys { layout: l, .. } => l == layout,
        Term::LatentValues { layout: l, .. } => l == layout,
        _ => false,
    }
}

/// Projections, norms, biases and the element-wise operations.
pub open spec fn row_effect(op: Op, st: Buffers) -> Buffers {
    match op {
        Op::Embed { cols, rows, .. } => st.insert(Buf::X, embedded(rows as int, cols as int)),
        Op::RmsNorm { x, w, y, rows, cols } => st.insert(
            y,
            when(
                w.copy == DeviceCopy::F32 && has_shape(st[x], rows as int, cols as int),
                normed(st[x], param(w)),
            ),
        ),
        Op::Gemm { path, out, x, w, n, k, rows } => st.insert(
            out,
            when(
                multiplies(path, w.copy) && has_shape(st[x], rows as int, k as int),
                product(st[x], param(w), n as int),
            ),
        ),
        Op::GemvF16Qkv { layer, q, nq, nkv, k, rows } => {
            let x = st[Buf::Xn];
            let ok = has_shape(x, rows as int, k as int);
            st.insert(q, when(ok, product(x, layer_param(layer, Tensor::Wq), nq as int))).insert(
                Buf::K,
                when(ok, product(x, layer_param(layer, Tensor::Wk), nkv as int)),
            ).insert(Buf::V, when(ok, product(x, layer_param(layer, Tensor::Wv), nkv as int)))
        },
        Op::QgSplit { rows, heads, dim } => {
            let x = st[Buf::Qg];
            let ok = has_shape(x, rows as int, 2 * (heads * dim));
            st.insert(Buf::Q, when(ok, query_half(x, heads * dim))).insert(
                Buf::AttnGate,
                when(ok, gate_half(x, heads * dim)),
            )
        },
        Op::AddBias { x, bias, rows, cols } => st.insert(
            x,
            when(
                bias.copy == DeviceCopy::F32 && has_shape(st[x], rows as int, cols as int),
                biased(st[x], param(bias)),
            ),
        ),
        Op::QkNorm { layer, rows, heads, kv_heads, dim } => {
            let q = st[Buf::Q];
            let k = st[Buf::K];
            st.insert(
                Buf::Q,
                when(
                    has_shape(q, rows as int, heads * dim),
                    head_normed(q, layer_param(layer, Tensor::QNorm)),
                ),
            ).insert(
                Buf::K,
                when(
                    has_shape(k, rows as int, kv_heads * dim),
                    head_normed(k, layer_param(layer, Tensor::KNorm)),
                ),
            )
        },
        Op::Rope { q, k, rows, heads, kv_heads, dim, rot } => {
            let xq = st[q];
            let xk = st[k];
            st.insert(
                q,
                when(
                    has_shape(xq, rows as int, heads * dim),
                    rotated(xq, dim as int, rot as int),
                ),
            ).insert(
                k,
                when(
                    has_shape(xk, rows as int, kv_heads * dim),
                    rotated(xk, dim as int, rot as int),
                ),
            )
        },
        Op::Add { x, y, n } => st.insert(
            x,
            when(
                same_shape(st[x], st[y]) && st[x].rows * st[x].cols == n,
                plus(st[x], st[y]),
            ),
        ),
        Op::SiluMul { up, gate, out, n } => st.insert(
            out,
            when(
                same_shape(st[gate], st[up]) && st[gate].rows * st[gate].cols == n,
                gated(st[gate], st[up]),
            ),
        ),
        _ => st,
    }
}

/// Caches and attention.
pub open spec fn attention_effect(op: Op, st: Buffers) -> Buffers {
    match op {
        Op::KvStore { half, kv, cache, rows, kv_heads, dim, max_seq } => st.insert(
            cache,
            when(
                has_shape(st[kv], rows as int, kv_heads * dim),
                stored(st[cache], st[kv], slots(half, max_seq)),
            ),
        ),
        Op::KvStorePaged { half, kv, cache, rows, kv_heads, dim, tokens_per_page } => st.insert(
            cache,
            when(
                has_shape(st[kv], rows as int, kv_heads * dim),
                stored(st[cache], st[kv], pages(half, tokens_per_page)),
            ),
        ),
        Op::AttnBatched { half, k, v, rows, heads, kv_heads, dim, max_seq } => st.insert(
            Buf::Attn,
            when(
                has_shape(st[Buf::Q], rows as int, heads * dim) && laid_out(
                    st[k],
                    slots(half, max_seq),
                ) && laid_out(st[v], slots(half, max_seq)) && st[k].cols == kv_heads * dim
                    && st[v].cols == kv_heads * dim,
                attention(st[Buf::Q], st[k], st[v], heads as int, kv_heads as int),
            ),
        ),
        Op::AttnPaged {
            half,
            k,
            v,
            rows,
            heads,
            kv_heads,
            dim,
            tokens_per_page,
            max_pages,
        } => st.insert(
            Buf::Attn,
            when(
                has_shape(st[Buf::Q], rows as int, heads * dim) && laid_out(
                    st[k],
                    pages(half, tokens_per_page),
                ) && laid_out(st[v], pages(half, tokens_per_page)) && st[k].cols == kv_heads * dim
                    && st[v].cols == kv_heads * dim,
                attention(st[Buf::Q], st[k], st[v], heads as int, kv_heads as int),
            ),
        ),
        Op::AttnPrefillF16 { k, v, run, heads, kv_heads, dim, max_seq } => st.insert(
            Buf::Attn,
            when(
                st[Buf::Q].cols == heads * dim && same_shape(st[Buf::Attn], st[Buf::Q]) && laid_out(
                    st[k],
                    slots(true, max_seq),
                ) && laid_out(st[v], slots(true, max_seq)) && st[k].cols == kv_heads * dim
                    && st[v].cols == kv_heads * dim,
                run_attention(
                    st[Buf::Attn],
                    run,
                    st[Buf::Q],
                    st[k],
                    st[v],
                    heads as int,
                    kv_heads as int,
                ),
            ),
        ),
        Op::AttnGateApply { n } => st.insert(
            Buf::Attn,
            when(
                same_shape(st[Buf::Attn], st[Buf::AttnGate]) && st[Buf::Attn].rows
                    * st[Buf::Attn].cols == n,
                sigmoid_gated(st[Buf::Attn], st[Buf::AttnGate]),
            ),
        ),
        _ => st,
    }
}

pub open spec fn latent_store(
    st: Buffers,
    layer: usize,
    rows: int,
    heads: int,
    nope: int,
    rope: int,
    v_dim: int,
    layout: Layout,
) -> Buffers {
    let kv = st[Buf::MlaKv];
    let rotary = st[Buf::MlaKRope];
    let ok = has_shape(kv, rows, heads * (nope + v_dim)) && has_shape(rotary, rows, rope);
    st.insert(
        Buf::MlaKCache(layer),
        when(
            ok,
            latent_keys(
                st[Buf::MlaKCache(layer)],
                kv,
                rotary,
                heads * (nope + rope),
                layout,
            ),
        ),
    ).insert(
        Buf::MlaVCache(layer),
        when(ok, latent_values(st[Buf::MlaVCache(layer)], kv, heads * v_dim, layout)),
    )
}

pub open spec fn latent_attend(
    st: Buffers,
    layer: usize,
    rows: int,
    heads: int,
    k_dim: int,
    v_dim: int,
    layout: Layout,
) -> Buffers {
    let q = st[Buf::Q];
    let k = st[Buf::MlaKCache(layer)];
    let v = st[Buf::MlaVCache(layer)];
    st.insert(
        Buf::MlaAttn,
        when(
            has_shape(q, rows, heads * k_dim) && laid_out(k, layout) && laid_out(v, layout)
                && k.cols == heads * k_dim && v.cols == heads * v_dim,
            latent_attention(q, k, v, heads),
        ),
    )
}

/// Low-rank attention.
pub open spec fn latent_effect(op: Op, st: Buffers) -> Buffers {
    match op {
        Op::MlaExtractKvLora { rows, rank, rope } => st.insert(
            Buf::MlaKvLora,
            when(
                has_shape(st[Buf::MlaKvA], rows as int, rank + rope),
                latent_part(st[Buf::MlaKvA], rank as int),
            ),
        ),
        Op::MlaExtractKRope { rows, rank, rope } => st.insert(
            Buf::MlaKRope,
            when(
                has_shape(st[Buf::MlaKvA], rows as int, rank + rope),
                rotary_part(st[Buf::MlaKvA], rope as int),
            ),
        ),
        Op::MlaAssembleQ { rows, heads, nope, rope } => st.insert(
            Buf::Q,
            when(
                has_shape(st[Buf::QNope], rows as int, heads * nope) && has_shape(
                    st[Buf::QRope],
                    rows as int,
                    heads * rope,
                ),
                joined(st[Buf::QNope], st[Buf::QRope], heads * (nope + rope)),
            ),
        ),
        Op::MlaStore { layer, rows, max_seq, heads, nope, rope, v_dim } => latent_store(
            st,
            layer,
            rows as int,
            heads as int,
            nope as int,
            rope as int,
            v_dim as int,
            slots(false, max_seq),
        ),
        Op::MlaStorePaged {
            layer,
            rows,
            heads,
            nope,
            rope,
            v_dim,
            tokens_per_page,
        } => latent_store(
            st,
            layer,
            rows as int,
            heads as int,
            nope as int,
            rope as int,
            v_dim as int,
            pages(false, tokens_per_page),
        ),
        Op::MlaAttn { layer, rows, heads, k_dim, v_dim, max_seq } => latent_attend(
            st,
            layer,
            rows as int,
            heads as int,
            k_dim as int,
            v_dim as int,
            slots(false, max_seq),
        ),
        Op::MlaAttnPaged {
            layer,
            rows,
            heads,
            nope,
            rope,
            v_dim,
            tokens_per_page,
            max_pages,
        } => latent_attend(
            st,
            layer,
            rows as int,
            heads as int,
            nope + rope,
            v_dim as int,
            pages(false, tokens_per_page),
        ),
        _ => st,
    }
}

/// Linear attention.
pub open spec fn linear_effect(op: Op, st: Buffers) -> Buffers {
    match op {
        Op::GdnConvUpdate { layer, rows, conv_dim, keep } => {
            let x = st[Buf::GdnQkvPre];
            let before = st[Buf::GdnConv(layer)];
            let ok = has_shape(x, rows as int, conv_dim as int);
            st.insert(
                Buf::GdnQkv,
                when(ok, convolved(x, before, layer_param(layer, Tensor::GdnConvW))),
            ).insert(Buf::GdnConv(layer), when(ok, kept(before, x, keep as int)))
        },
        Op::GdnL2NormQk { rows, k_heads, dim, conv_dim } => st.insert(
            Buf::GdnQkv,
            when(
                has_shape(st[Buf::GdnQkv], rows as int, conv_dim as int) && 2 * (k_heads * dim)
                    <= conv_dim,
                unit_heads(st[Buf::GdnQkv], dim as int),
            ),
        ),
        Op::GdnStep { layer, rows, v_heads, k_heads, dim, conv_dim } => {
            let state = st[Buf::GdnState(layer)];
            let qkv = st[Buf::GdnQkv];
            let a = st[Buf::GdnA];
            let b = st[Buf::GdnB];
            let ok = has_shape(qkv, rows as int, conv_dim as int) && has_shape(
                a,
                rows as int,
                v_heads as int,
            ) && has_shape(b, rows as int, v_heads as int) && conv_dim == 2 * (k_heads * dim)
                + v_heads * dim;
            st.insert(
                Buf::GdnO,
                when(ok, recurred(layer, state, qkv, a, b, v_heads * dim)),
            ).insert(
                Buf::GdnState(layer),
                when(ok, recurred_state(layer, state, qkv, a, b)),
            )
        },
        Op::GdnGatedNorm { layer, rows, v_heads, dim } => st.insert(
            Buf::GdnO,
            when(
                has_shape(st[Buf::GdnO], rows as int, v_heads * dim) && same_shape(
                    st[Buf::GdnO],
                    st[Buf::GdnZ],
                ),
                gated_norm(st[Buf::GdnO], st[Buf::GdnZ], layer_param(layer, Tensor::GdnNorm)),
            ),
        ),
        _ => st,
    }
}

/// The rows of `Xn2` stand in `Xg` packed by their experts, with their weights, their source rows
/// and the experts' counts, and the sum is still empty.
pub open spec fn packed_by_expert(st: Buffers) -> bool {
    let x = st[Buf::Xn2];
    let ids = st[Buf::ExpIds];
    let weights = st[Buf::ExpW];
    &&& st[Buf::Xg] == packed(x, ids, x.cols)
    &&& st[Buf::Gw] == packed(weights, ids, 1)
    &&& st[Buf::RowIdx] == packed_source(ids)
    &&& st[Buf::CountsHost].term == Term::Counted(Box::new(ids.term))
    &&& st[Buf::HAcc] == zeros(x.rows * x.cols * 4)
    &&& ids.rows == x.rows
    &&& same_shape(ids, weights)
}

/// Routing and experts.
pub open spec fn expert_effect(op: Op, st: Buffers) -> Buffers {
    match op {
        Op::MoeRouter { experts, topk, rows, norm_topk, scale } => {
            let scores = st[Buf::Router];
            let ok = has_shape(scores, rows as int, experts as int);
            st.insert(Buf::ExpIds, when(ok, chosen(scores, topk as int))).insert(
                Buf::ExpW,
                when(ok, choice_weights(scores, topk as int, norm_topk, scale)),
            )
        },
        Op::MoeCpu { layer, topk, rows, d, inter } => st.insert(
            Buf::X,
            when(
                has_shape(st[Buf::X], rows as int, d as int) && same_shape(
                    st[Buf::X],
                    st[Buf::Xn2],
                ) && has_shape(st[Buf::ExpIds], rows as int, topk as int) && same_shape(
                    st[Buf::ExpIds],
                    st[Buf::ExpW],
                ),
                plus(
                    st[Buf::X],
                    routed(
                        st[Buf::Xn2],
                        st[Buf::ExpIds],
                        st[Buf::ExpW],
                        layer,
                        d as int,
                    ),
                ),
            ),
        ),
        Op::MoeGroupedGateUp { layer, source, rows, inter, d, topk } => {
            let x = st[Buf::Xn2];
            let ids = st[Buf::ExpIds];
            let ok = x.cols == d && ids.rows == x.rows && ids.cols == topk && ids.rows * ids.cols
                == rows;
            st.insert(
                Buf::GateAll,
                when(ok, expert_in(x, ids, layer_param(layer, Tensor::MoeWg), inter as int)),
            ).insert(
                Buf::UpAll,
                when(ok, expert_in(x, ids, layer_param(layer, Tensor::MoeWu), inter as int)),
            )
        },
        Op::MoeGroupedDown { layer, source, rows, d, inter } => {
            let x = st[Buf::EhAll];
            let ids = st[Buf::ExpIds];
            st.insert(
                Buf::DownAll,
                when(
                    has_shape(x, rows as int, inter as int) && ids.rows * ids.cols == rows,
                    expert_out(x, ids, layer_param(layer, Tensor::MoeWd), d as int),
                ),
            )
        },
        Op::MoeScatterAll { rows, topk, d } => st.insert(
            Buf::HAcc,
            when(
                has_shape(st[Buf::DownAll], rows * topk, d as int) && has_shape(
                    st[Buf::ExpW],
                    rows as int,
                    topk as int,
                ),
                weighted_sum(st[Buf::DownAll], st[Buf::ExpW]),
            ),
        ),
        Op::Memset { buf, bytes } => st.insert(buf, zeros(bytes as int)),
        Op::MoeCountExperts { rows, topk } => st.insert(
            Buf::CountsDev,
            when(
                st[Buf::CountsDev].term == Term::Zero && has_shape(
                    st[Buf::ExpIds],
                    rows as int,
                    topk as int,
                ),
                counted(st[Buf::ExpIds], st[Buf::CountsDev].cols),
            ),
        ),
        Op::MoePrefixSum { experts } => st.insert(
            Buf::OffsetsDev,
            when(st[Buf::CountsDev].cols == experts * 4, offsets(st[Buf::CountsDev])),
        ),
        Op::MoeGatherRows { rows, topk, d } => {
            let ids = st[Buf::ExpIds];
            let ok = has_shape(st[Buf::Xn2], rows as int, d as int) && has_shape(
                ids,
                rows as int,
                topk as int,
            ) && same_shape(ids, st[Buf::ExpW]) && st[Buf::OffsetsDev].term == Term::Offsets(
                Box::new(Term::Counted(Box::new(ids.term))),
            ) && st[Buf::MoePosDev] == zeros(st[Buf::OffsetsDev].cols);
            st.insert(Buf::Xg, when(ok, packed(st[Buf::Xn2], ids, d as int))).insert(
                Buf::Gw,
                when(ok, packed(st[Buf::ExpW], ids, 1)),
            ).insert(Buf::RowIdx, when(ok, packed_source(ids))).insert(Buf::MoePosDev, unknown())
        },
        Op::MoeReadCounts { experts } => st.insert(
            Buf::CountsHost,
            when(st[Buf::CountsDev].cols == experts * 4, st[Buf::CountsDev]),
        ),
        Op::MoeHostExperts { layer, source } => st.insert(
            Buf::HAcc,
            when(
                packed_by_expert(st),
                routed(
                    st[Buf::Xn2],
                    st[Buf::ExpIds],
                    st[Buf::ExpW],
                    layer,
                    st[Buf::Xn2].cols,
                ),
            ),
        ).insert(Buf::GateAll, unknown()).insert(Buf::UpAll, unknown()).insert(
            Buf::EhAll,
            unknown(),
        ).insert(Buf::DownAll, unknown()),
        _ => st,
    }
}

/// What an operation leaves in the buffers. Those that only record, copy to the host or fetch
/// weights leave them as they were.
pub open spec fn effect(op: Op, st: Buffers) -> Buffers {
    match op {
        Op::Embed { .. }
        | Op::RmsNorm { .. }
        | Op::Gemm { .. }
        | Op::GemvF16Qkv { .. }
        | Op::QgSplit { .. }
        | Op::AddBias { .. }
        | Op::QkNorm { .. }
        | Op::Rope { .. }
        | Op::Add { .. }
        | Op::SiluMul { .. } => row_effect(op, st),
        Op::KvStore { .. }
        | Op::KvStorePaged { .. }
        | Op::AttnBatched { .. }
        | Op::AttnPaged { .. }
        | Op::AttnPrefillF16 { .. }
        | Op::AttnGateApply { .. } => attention_effect(op, st),
        Op::MlaExtractKvLora { .. }
        | Op::MlaExtractKRope { .. }
        | Op::MlaAssembleQ { .. }
        | Op::MlaStorePaged { .. }
        | Op::MlaAttnPaged { .. }
        | Op::MlaStore { .. }
        | Op::MlaAttn { .. } => latent_effect(op, st),
        Op::GdnConvUpdate { .. }
        | Op::GdnL2NormQk { .. }
        | Op::GdnStep { .. }
        | Op::GdnGatedNorm { .. } => linear_effect(op, st),
        _ => expert_effect(op, st),
    }
}

/// What the buffers hold after the first `n` operations, one after the other.
pub open spec fn after_first(ops: Seq<Op>, st: Buffers, n: nat) -> Buffers
    decreases n,
{
    if n == 0 {
        st
    } else {
        effect(ops[n - 1], after_first(ops, st, (n - 1) as nat))
    }
}

/// What the buffers hold after the operations.
pub open spec fn after(ops: Seq<Op>, st: Buffers) -> Buffers {
    after_first(ops, st, ops.len())
}

pub proof fn lemma_after_prefix(a: Seq<Op>, b: Seq<Op>, st: Buffers, n: nat)
    requires
        n <= a.len(),
        n <= b.len(),
        forall|i: int| 0 <= i < n ==> a[i] == b[i],
    ensures
        after_first(a, st, n) == after_first(b, st, n),
    decreases n,
{
    if n > 0 {
        lemma_after_prefix(a, b, st, (n - 1) as nat);
        assert(a[n - 1] == b[n - 1]);
    }
}

proof fn lemma_after_rest(a: Seq<Op>, b: Seq<Op>, st: Buffers, n: nat)
    requires
        n <= b.len(),
    ensures
        after_first(a + b, st, a.len() + n) == after_first(b, after(a, st), n),
    decreases n,
{
    if n == 0 {
        lemma_after_prefix(a, a + b, st, a.len());
    } else {
        lemma_after_rest(a, b, st, (n - 1) as nat);
        assert((a + b)[a.len() + n - 1] == b[n - 1]);
    }
}

/// Operations one list after the other.
pub proof fn lemma_after_both(a: Seq<Op>, b: Seq<Op>, st: Buffers)
    ensures
        after(a + b, st) == after(b, after(a, st)),
{
    lemma_after_rest(a, b, st, b.len());
}

} // verus!
