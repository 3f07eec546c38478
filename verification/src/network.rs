//! The function that a step computes: embedding, layers with a residual stream, and the output
//! head, with the caches as they are before the step.

use vstd::prelude::*;

use crate::device::Buf;
use crate::device::Run;
use crate::device::Tensor;
use crate::forward::LayerDev;
use crate::forward::Step;
use crate::meaning::attention;
use crate::meaning::biased;
use crate::meaning::choice_weights;
use crate::meaning::chosen;
use crate::meaning::convolved;
use crate::meaning::embedded;
use crate::meaning::gate_half;
use crate::meaning::gated;
use crate::meaning::gated_norm;
use crate::meaning::head_normed;
use crate::meaning::joined;
use crate::meaning::kept;
use crate::meaning::latent_attention;
use crate::meaning::latent_keys;
use crate::meaning::latent_part;
use crate::meaning::latent_values;
use crate::meaning::layer_param;
use crate::meaning::normed;
use crate::meaning::plus;
use crate::meaning::product;
use crate::meaning::query_half;
use crate::meaning::recurred;
use crate::meaning::recurred_state;
use crate::meaning::rotary_part;
use crate::meaning::rotated;
use crate::meaning::routed;
use crate::meaning::run_attention;
use crate::meaning::sigmoid_gated;
use crate::meaning::stored;
use crate::meaning::unit_heads;
use crate::meaning::Buffers;
use crate::meaning::Layout;
use crate::meaning::Matrix;
use crate::meaning::Param;

verus! {

/// A projection of layer `li`.
pub open spec fn project(x: Matrix, li: usize, tensor: Tensor, outputs: int) -> Matrix {
    product(x, layer_param(li, tensor), outputs)
}

/// The gated MLP: the activation is applied to the `gate` projection, multiplied with the `up`
/// projection, and projected back by `down`.
pub open spec fn gated_mlp(
    x: Matrix,
    li: usize,
    gate: Tensor,
    up: Tensor,
    down: Tensor,
    inter: int,
    d: int,
) -> Matrix {
    project(gated(project(x, li, gate, inter), project(x, li, up, inter)), li, down, d)
}

impl Step {
    pub open spec fn width(self) -> int {
        self.cfg.d_model as int
    }

    pub open spec fn query_width(self) -> int {
        self.cfg.n_heads * self.cfg.head_dim
    }

    pub open spec fn key_width(self) -> int {
        self.cfg.n_kv_heads * self.cfg.head_dim
    }

    /// How the caches of this step lie.
    pub open spec fn cache_layout(self, half: bool) -> Layout {
        Layout {
            half,
            paged: self.paged,
            span: if self.paged {
                self.tokens_per_page as int
            } else {
                self.cfg.max_seq_len as int
            },
        }
    }

    pub open spec fn rotate(self, x: Matrix) -> Matrix {
        rotated(x, self.cfg.head_dim as int, self.rotary_dim as int)
    }

    /// The query projection, with gates beside the queries where attention is gated.
    pub open spec fn query_rows(self, li: usize, x: Matrix) -> Matrix {
        project(
            x,
            li,
            Tensor::Wq,
            if self.cfg.attn_output_gate {
                2 * self.query_width()
            } else {
                self.query_width()
            },
        )
    }

    pub open spec fn queries(self, li: usize, l: LayerDev, x: Matrix) -> Matrix {
        let rows = self.query_rows(li, x);
        let plain = if self.cfg.attn_output_gate {
            query_half(rows, self.query_width())
        } else {
            rows
        };
        let with_bias = if l.has_bq {
            biased(plain, layer_param(li, Tensor::Bq))
        } else {
            plain
        };
        self.rotate(
            if l.has_q_norm {
                head_normed(with_bias, layer_param(li, Tensor::QNorm))
            } else {
                with_bias
            },
        )
    }

    pub open spec fn keys(self, li: usize, l: LayerDev, x: Matrix) -> Matrix {
        let plain = project(x, li, Tensor::Wk, self.key_width());
        let with_bias = if l.has_bk {
            biased(plain, layer_param(li, Tensor::Bk))
        } else {
            plain
        };
        self.rotate(
            if l.has_q_norm {
                head_normed(with_bias, layer_param(li, Tensor::KNorm))
            } else {
                with_bias
            },
        )
    }

    pub open spec fn values(self, li: usize, l: LayerDev, x: Matrix) -> Matrix {
        let plain = project(x, li, Tensor::Wv, self.key_width());
        if l.has_bv {
            biased(plain, layer_param(li, Tensor::Bv))
        } else {
            plain
        }
    }

    pub open spec fn key_cache(self, li: usize, l: LayerDev, x: Matrix, before: Buffers) -> Matrix {
        stored(before[Buf::KCache(li)], self.keys(li, l, x), self.cache_layout(self.spec_half()))
    }

    pub open spec fn value_cache(
        self,
        li: usize,
        l: LayerDev,
        x: Matrix,
        before: Buffers,
    ) -> Matrix {
        stored(
            before[Buf::VCache(li)],
            self.values(li, l, x),
            self.cache_layout(self.spec_half()),
        )
    }

    /// Attention of all rows, then of each run of prompt rows together.
    pub open spec fn attended(
        self,
        q: Matrix,
        k: Matrix,
        v: Matrix,
        runs: Seq<Run>,
    ) -> Matrix
        decreases runs.len(),
    {
        let heads = self.cfg.n_heads as int;
        let kv_heads = self.cfg.n_kv_heads as int;
        if runs.len() == 0 {
            attention(q, k, v, heads, kv_heads)
        } else {
            run_attention(
                self.attended(q, k, v, runs.drop_last()),
                runs.last(),
                q,
                k,
                v,
                heads,
                kv_heads,
            )
        }
    }

    /// What a full-attention layer adds to the stream.
    pub open spec fn full_attention(
        self,
        li: usize,
        l: LayerDev,
        runs: Seq<Run>,
        x: Matrix,
        before: Buffers,
    ) -> Matrix {
        let out = self.attended(
            self.queries(li, l, x),
            self.key_cache(li, l, x, before),
            self.value_cache(li, l, x, before),
            if self.spec_half() && !self.paged {
                runs
            } else {
                Seq::empty()
            },
        );
        project(
            if self.cfg.attn_output_gate {
                sigmoid_gated(out, gate_half(self.query_rows(li, x), self.query_width()))
            } else {
                out
            },
            li,
            Tensor::Wo,
            self.width(),
        )
    }

    /// The queries of low-rank attention, through a bottleneck where the model has one.
    pub open spec fn latent_queries(self, li: usize, x: Matrix) -> Matrix {
        let c = self.cfg;
        let narrow = if c.q_lora_rank > 0 {
            normed(
                project(x, li, Tensor::MlaQA, c.q_lora_rank as int),
                layer_param(li, Tensor::MlaQANorm),
            )
        } else {
            x
        };
        joined(
            project(narrow, li, Tensor::MlaQB, c.n_heads * c.qk_nope_head_dim),
            rotated(
                project(narrow, li, Tensor::MlaQRope, c.n_heads * c.qk_rope_head_dim),
                c.qk_rope_head_dim as int,
                c.qk_rope_head_dim as int,
            ),
            c.n_heads * (c.qk_nope_head_dim + c.qk_rope_head_dim),
        )
    }

    /// The compressed keys and values: the latent part beside the rotary part.
    pub open spec fn compressed(self, li: usize, x: Matrix) -> Matrix {
        project(x, li, Tensor::MlaKvA, self.cfg.kv_lora_rank + self.cfg.qk_rope_head_dim)
    }

    /// Keys and values of all heads from the latent part.
    pub open spec fn expanded(self, li: usize, x: Matrix) -> Matrix {
        let c = self.cfg;
        project(
            normed(
                latent_part(self.compressed(li, x), c.kv_lora_rank as int),
                layer_param(li, Tensor::MlaKvANorm),
            ),
            li,
            Tensor::MlaKvB,
            c.n_heads * (c.qk_nope_head_dim + c.v_head_dim),
        )
    }

    pub open spec fn rotary_keys(self, li: usize, x: Matrix) -> Matrix {
        let rope = self.cfg.qk_rope_head_dim as int;
        rotated(rotary_part(self.compressed(li, x), rope), rope, rope)
    }

    pub open spec fn latent_key_cache(self, li: usize, x: Matrix, before: Buffers) -> Matrix {
        let c = self.cfg;
        latent_keys(
            before[Buf::MlaKCache(li)],
            self.expanded(li, x),
            self.rotary_keys(li, x),
            c.n_heads * (c.qk_nope_head_dim + c.qk_rope_head_dim),
            self.cache_layout(false),
        )
    }

    pub open spec fn latent_value_cache(self, li: usize, x: Matrix, before: Buffers) -> Matrix {
        latent_values(
            before[Buf::MlaVCache(li)],
            self.expanded(li, x),
            self.cfg.n_heads * self.cfg.v_head_dim,
            self.cache_layout(false),
        )
    }

    /// What a low-rank attention layer adds to the stream.
    pub open spec fn low_rank_attention(self, li: usize, x: Matrix, before: Buffers) -> Matrix {
        project(
            latent_attention(
                self.latent_queries(li, x),
                self.latent_key_cache(li, x, before),
                self.latent_value_cache(li, x, before),
                self.cfg.n_heads as int,
            ),
            li,
            Tensor::MlaO,
            self.width(),
        )
    }

    /// Queries, keys and values of a linear-attention layer before its convolution.
    pub open spec fn linear_rows(self, li: usize, x: Matrix) -> Matrix {
        let c = self.cfg;
        project(
            x,
            li,
            Tensor::GdnInQkv,
            2 * (c.gdn_k_heads * c.gdn_head_dim) + c.gdn_v_heads * c.gdn_head_dim,
        )
    }

    pub open spec fn linear_qkv(self, li: usize, x: Matrix, before: Buffers) -> Matrix {
        unit_heads(
            convolved(
                self.linear_rows(li, x),
                before[Buf::GdnConv(li)],
                layer_param(li, Tensor::GdnConvW),
            ),
            self.cfg.gdn_head_dim as int,
        )
    }

    /// What a linear-attention layer adds to the stream.
    pub open spec fn linear_attention(self, li: usize, x: Matrix, before: Buffers) -> Matrix {
        let c = self.cfg;
        let wide = c.gdn_v_heads * c.gdn_head_dim;
        project(
            gated_norm(
                recurred(
                    li,
                    before[Buf::GdnState(li)],
                    self.linear_qkv(li, x, before),
                    project(x, li, Tensor::GdnInA, c.gdn_v_heads as int),
                    project(x, li, Tensor::GdnInB, c.gdn_v_heads as int),
                    wide,
                ),
                project(x, li, Tensor::GdnInZ, wide),
                layer_param(li, Tensor::GdnNorm),
            ),
            li,
            Tensor::GdnOut,
            self.width(),
        )
    }

    /// What the attention of layer `li` adds to the stream, of the normed stream `x`.
    pub open spec fn attention_part(
        self,
        li: usize,
        l: LayerDev,
        runs: Seq<Run>,
        x: Matrix,
        before: Buffers,
    ) -> Matrix {
        if self.cfg.kv_lora_rank > 0 {
            self.low_rank_attention(li, x, before)
        } else if l.has_gdn {
            self.linear_attention(li, x, before)
        } else {
            self.full_attention(li, l, runs, x, before)
        }
    }

    /// What the caches of layer `li` hold after its attention.
    pub open spec fn cache_after(
        self,
        li: usize,
        l: LayerDev,
        x: Matrix,
        before: Buffers,
        b: Buf,
    ) -> Matrix {
        let low_rank = self.cfg.kv_lora_rank > 0;
        let linear = !low_rank && l.has_gdn;
        let full = !low_rank && !l.has_gdn;
        match b {
            Buf::KCache(_) if full => self.key_cache(li, l, x, before),
            Buf::VCache(_) if full => self.value_cache(li, l, x, before),
            Buf::MlaKCache(_) if low_rank => self.latent_key_cache(li, x, before),
            Buf::MlaVCache(_) if low_rank => self.latent_value_cache(li, x, before),
            Buf::GdnConv(_) if linear => kept(
                before[b],
                self.linear_rows(li, x),
                self.cfg.gdn_conv_kernel - 1,
            ),
            Buf::GdnState(_) if linear => recurred_state(
                li,
                before[b],
                self.linear_qkv(li, x, before),
                project(x, li, Tensor::GdnInA, self.cfg.gdn_v_heads as int),
                project(x, li, Tensor::GdnInB, self.cfg.gdn_v_heads as int),
            ),
            _ => before[b],
        }
    }

    /// Experts per row.
    pub open spec fn choices(self) -> int {
        if self.cfg.num_experts_per_tok <= self.cfg.num_experts {
            self.cfg.num_experts_per_tok as int
        } else {
            self.cfg.num_experts as int
        }
    }

    /// Width of one expert.
    pub open spec fn expert_width(self) -> int {
        if self.cfg.moe_intermediate_size == 0 {
            self.cfg.intermediate_size as int
        } else {
            self.cfg.moe_intermediate_size as int
        }
    }

    /// What the chosen experts of each row add to the stream.
    pub open spec fn routed_part(self, li: usize, x: Matrix) -> Matrix {
        let scores = project(x, li, Tensor::MoeRouter, self.cfg.num_experts as int);
        routed(
            x,
            chosen(scores, self.choices()),
            choice_weights(
                scores,
                self.choices(),
                self.cfg.moe_norm_topk,
                self.cfg.moe_routed_scale,
            ),
            li,
            self.width(),
        )
    }

    /// What the shared experts add to the stream.
    pub open spec fn shared_part(self, li: usize, x: Matrix) -> Matrix {
        gated_mlp(
            x,
            li,
            Tensor::SharedWg,
            Tensor::SharedWu,
            Tensor::SharedWd,
            self.cfg.n_shared_experts * self.expert_width(),
            self.width(),
        )
    }

    pub open spec fn mlp_part(self, li: usize, x: Matrix) -> Matrix {
        gated_mlp(
            x,
            li,
            Tensor::Wg,
            Tensor::Wu,
            Tensor::Wd,
            self.cfg.intermediate_size as int,
            self.width(),
        )
    }

    /// The experts of a layer lie on the device, or are fetched to it.
    pub open spec fn on_device(self) -> bool {
        self.prefetch || self.expert_slots >= self.cfg.num_experts
    }

    /// The stream after the second half of layer `li`, whose norm is `x`.
    pub open spec fn second_half(
        self,
        li: usize,
        l: LayerDev,
        x: Matrix,
        stream: Matrix,
    ) -> Matrix {
        if self.cfg.num_experts == 0 || !l.has_router {
            plus(stream, self.mlp_part(li, x))
        } else if self.choices() == 0 {
            stream
        } else if self.on_device() && l.has_shared {
            plus(stream, plus(self.routed_part(li, x), self.shared_part(li, x)))
        } else {
            plus(stream, self.routed_part(li, x))
        }
    }

    /// The stream between the halves of layer `li`.
    pub open spec fn middle(
        self,
        li: usize,
        l: LayerDev,
        runs: Seq<Run>,
        stream: Matrix,
        before: Buffers,
    ) -> Matrix {
        let x = normed(stream, layer_param(li, Tensor::RmsAttn));
        plus(stream, self.attention_part(li, l, runs, x, before))
    }

    /// The residual stream: the embedding, and what each of the first `n` layers adds.
    pub open spec fn stream(
        self,
        layers: Seq<LayerDev>,
        runs: Seq<Run>,
        before: Buffers,
        n: nat,
    ) -> Matrix
        decreases n,
    {
        if n == 0 {
            embedded(self.rows as int, self.width())
        } else {
            let li = (n - 1) as usize;
            let mid = self.middle(
                li,
                layers[n - 1],
                runs,
                self.stream(layers, runs, before, (n - 1) as nat),
                before,
            );
            self.second_half(li, layers[n - 1], normed(mid, layer_param(li, Tensor::RmsMlp)), mid)
        }
    }

    /// The logits: the output head on the final norm of the residual stream.
    pub open spec fn logits(
        self,
        layers: Seq<LayerDev>,
        runs: Seq<Run>,
        before: Buffers,
    ) -> Matrix {
        product(
            normed(
                self.stream(layers, runs, before, layers.len()),
                Param { layer: None, tensor: Tensor::RmsFinal },
            ),
            Param { layer: None, tensor: Tensor::LmHead },
            self.cfg.vocab_size as int,
        )
    }
}

/// The layer that a buffer belongs to, for those that outlive a step.
pub open spec fn layer_of(b: Buf) -> Option<usize> {
    match b {
        Buf::KCache(li) => Some(li),
        Buf::VCache(li) => Some(li),
        Buf::MlaKCache(li) => Some(li),
        Buf::MlaVCache(li) => Some(li),
        Buf::GdnState(li) => Some(li),
        Buf::GdnConv(li) => Some(li),
        _ => None,
    }
}

} // verus!
