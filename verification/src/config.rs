//! Transformer configuration.

use vstd::prelude::*;

verus! {

/// Bit pattern of an IEEE 754 single.
pub type F32Bits = u32;

/// `0.0`
pub const F32_ZERO: F32Bits = 0;

/// `0.25`
pub const F32_QUARTER: F32Bits = 0x3e80_0000;

/// `1.0`
pub const F32_ONE: F32Bits = 0x3f80_0000;

/// `1e-6`
pub const F32_1E_MINUS_6: F32Bits = 0x3586_37bd;

/// `1e4`
pub const F32_1E4: F32Bits = 0x461c_4000;

/// `1e6`
pub const F32_1E6: F32Bits = 0x4974_2400;

/// `1e7`
pub const F32_1E7: F32Bits = 0x4b18_9680;

/// Positive infinity; larger patterns below the sign bit are NaNs.
pub const F32_INFINITY: F32Bits = 0x7f80_0000;

/// Device compute dtype for weights and GEMM operands.
#[derive(Debug, Clone, Copy, PartialEq, Eq, Default, Structural)]
pub enum ModelDType {
    /// Full fp32 path (default; reference behavior).
    #[default]
    F32,
    /// fp16 weights and fp16 GEMM inputs with fp32 accumulation.
    F16,
}

/// Configuration of one transformer. Real-valued settings are held by their bit patterns.
#[derive(Debug, Clone, Copy, PartialEq, Eq, Structural)]
pub struct Config {
    /// Compute dtype for device weights and GEMM operands.
    pub dtype: ModelDType,
    /// Vocabulary size.
    pub vocab_size: usize,
    /// Hidden (model) dimension.
    pub d_model: usize,
    /// Number of transformer layers.
    pub n_layers: usize,
    /// Number of query heads.
    pub n_heads: usize,
    /// Number of KV heads (GQA).
    pub n_kv_heads: usize,
    /// Head dimension.
    pub head_dim: usize,
    /// MLP intermediate size (gate/up width).
    pub intermediate_size: usize,
    /// MoE expert FFN intermediate size; 0 = use `intermediate_size` for experts.
    pub moe_intermediate_size: usize,
    /// Number of experts (0 = dense MLP, no MoE).
    pub num_experts: usize,
    /// Active experts per token (MoE routing; 0 = dense).
    pub num_experts_per_tok: usize,
    /// Maximum sequence length (static KV cache size).
    pub max_seq_len: usize,
    /// RMSNorm epsilon.
    pub rms_eps: F32Bits,
    /// Rotary embedding theta.
    pub rope_theta: F32Bits,
    /// Per-head RMSNorm on q/k after projection, before RoPE.
    pub qk_norm: bool,
    /// Attention output gate: q_proj carries `n_heads * head_dim * 2` rows, each head's block
    /// being `[query | gate]`.
    pub attn_output_gate: bool,
    /// Zero-centered RMSNorm weights: the checkpoint stores `w` with forward `x * (1 + w)`.
    pub zero_centered_norm: bool,
    /// MLA: q low-rank projection rank; 0 = disabled.
    pub q_lora_rank: usize,
    /// MLA: compressed KV latent rank; 0 = disabled (standard attention).
    pub kv_lora_rank: usize,
    /// MLA: non-RoPE head dim for q/k.
    pub qk_nope_head_dim: usize,
    /// MLA: decoupled RoPE head dim for q/k.
    pub qk_rope_head_dim: usize,
    /// MLA: value head dim.
    pub v_head_dim: usize,
    /// Batched MoE decode uses the device-side grouped GEMV kernels when true.
    pub moe_grouped: bool,
    /// Number of shared (always-active) experts; 0 = none.
    pub n_shared_experts: usize,
    /// MoE routing: renormalize the selected experts' scores to sum to 1.
    pub moe_norm_topk: bool,
    /// MoE routing: multiplier applied to every selected expert's weight.
    pub moe_routed_scale: F32Bits,
    /// YaRN RoPE context extension: the position-scaling factor. 0 = plain RoPE.
    pub rope_yarn_factor: F32Bits,
    /// YaRN: the un-extended context length.
    pub rope_yarn_orig_len: usize,
    /// YaRN: correction-range bounds.
    pub rope_yarn_beta_fast: F32Bits,
    pub rope_yarn_beta_slow: F32Bits,
    /// YaRN: numerator of the cos/sin attention factor.
    pub rope_yarn_mscale: F32Bits,
    /// YaRN: denominator scale; positive applies the attention-logit correction.
    pub rope_yarn_mscale_all_dim: F32Bits,
    /// RoPE pairing: `false` pairs coordinate `d` with `d + head_dim/2`, `true` pairs `2d` with
    /// `2d + 1`.
    pub rope_interleave: bool,
    /// Fraction of the head dim that gets RoPE; the tail passes through unrotated.
    pub rope_rotary_pct: F32Bits,
    /// Every Nth layer is full attention, the rest are gated-DeltaNet layers. 0 = every layer is
    /// full attention.
    pub full_attention_interval: usize,
    /// GDN: number of key heads.
    pub gdn_k_heads: usize,
    /// GDN: number of value heads (also the recurrent-state head count).
    pub gdn_v_heads: usize,
    /// GDN: per-head dim, shared by key and value heads.
    pub gdn_head_dim: usize,
    /// GDN: short depthwise causal conv kernel size on the fused qkv.
    pub gdn_conv_kernel: usize,
    /// Step profiler diagnostic: per-layer event bracketing of each decode step.
    pub step_profile: bool,
}

/// A float pattern that compares greater than `1.0`: positive, above one, and not a NaN.
pub open spec fn above_one(x: F32Bits) -> bool {
    F32_ONE < x <= F32_INFINITY
}

/// A float pattern that compares greater than or equal to `1.0`.
pub open spec fn at_least_one(x: F32Bits) -> bool {
    F32_ONE <= x <= F32_INFINITY
}

/// The largest multiple of two not above `n`.
pub open spec fn even_part(n: nat) -> nat {
    (n - n % 2) as nat
}

/// Settings common to the standard-attention families.
pub open spec fn dense_config(
    vocab_size: usize,
    d_model: usize,
    n_layers: usize,
    n_heads: usize,
    n_kv_heads: usize,
    head_dim: usize,
    intermediate_size: usize,
    max_seq_len: usize,
    rope_theta: F32Bits,
) -> Config {
    Config {
        dtype: ModelDType::F32,
        vocab_size,
        d_model,
        n_layers,
        n_heads,
        n_kv_heads,
        head_dim,
        intermediate_size,
        moe_intermediate_size: 0,
        num_experts: 0,
        num_experts_per_tok: 0,
        max_seq_len,
        rms_eps: F32_1E_MINUS_6,
        rope_theta,
        qk_norm: false,
        attn_output_gate: false,
        zero_centered_norm: false,
        q_lora_rank: 0,
        kv_lora_rank: 0,
        qk_nope_head_dim: 0,
        qk_rope_head_dim: 0,
        v_head_dim: 0,
        moe_grouped: true,
        n_shared_experts: 0,
        moe_norm_topk: true,
        moe_routed_scale: F32_ONE,
        rope_yarn_factor: F32_ZERO,
        rope_yarn_orig_len: 0,
        rope_yarn_beta_fast: F32_ZERO,
        rope_yarn_beta_slow: F32_ZERO,
        rope_yarn_mscale: F32_ONE,
        rope_yarn_mscale_all_dim: F32_ZERO,
        rope_interleave: false,
        rope_rotary_pct: F32_ONE,
        full_attention_interval: 0,
        gdn_k_heads: 0,
        gdn_v_heads: 0,
        gdn_head_dim: 0,
        gdn_conv_kernel: 0,
        step_profile: false,
    }
}

impl Config {
    pub open spec fn spec_expert_size(&self) -> nat {
        if self.moe_intermediate_size > 0 {
            self.moe_intermediate_size as nat
        } else {
            self.intermediate_size as nat
        }
    }

    pub open spec fn spec_yarn(&self) -> bool {
        above_one(self.rope_yarn_factor) && self.rope_yarn_orig_len > 0
    }

    /// Layer `li` runs full attention rather than the linear-attention recurrence.
    pub open spec fn spec_full_attn(&self, li: nat) -> bool {
        self.full_attention_interval == 0 || (li + 1) % (self.full_attention_interval as nat) == 0
    }

    /// Query width of all heads.
    pub open spec fn spec_nq(&self) -> int {
        self.n_heads * self.head_dim
    }

    /// Key or value width of all KV heads.
    pub open spec fn spec_nkv(&self) -> int {
        self.n_kv_heads * self.head_dim
    }

    /// Routed experts per token.
    pub open spec fn spec_topk(&self) -> int {
        vstd::math::min(self.num_experts_per_tok as int, self.num_experts as int)
    }

    pub open spec fn spec_shared_size(&self) -> int {
        self.n_shared_experts * self.spec_expert_size()
    }

    /// Width of the fused linear-attention q/k/v.
    pub open spec fn spec_conv_dim(&self) -> int {
        2 * self.spec_gdn_key_dim() + self.spec_gdn_value_dim()
    }

    /// Every width and product that the kernels take as a 32-bit integer is one, for steps of
    /// up to `rows` rows.
    pub open spec fn fits(&self, rows: int) -> bool {
        let m = i32::MAX as int;
        &&& 0 <= rows
        &&& self.vocab_size <= m
        &&& self.d_model <= m
        &&& self.max_seq_len <= m
        &&& self.n_heads <= m
        &&& self.n_kv_heads <= m
        &&& self.head_dim <= m
        &&& self.intermediate_size <= m
        &&& self.num_experts <= m
        &&& self.spec_expert_size() <= m
        &&& self.q_lora_rank <= m
        &&& self.kv_lora_rank + self.qk_rope_head_dim <= m
        &&& self.qk_nope_head_dim + self.qk_rope_head_dim <= m
        &&& self.qk_nope_head_dim + self.v_head_dim <= m
        &&& self.n_heads * (self.qk_nope_head_dim + self.qk_rope_head_dim) <= m
        &&& self.n_heads * (self.qk_nope_head_dim + self.v_head_dim) <= m
        &&& self.gdn_k_heads <= m
        &&& self.gdn_v_heads <= m
        &&& self.gdn_head_dim <= m
        &&& self.gdn_conv_kernel <= m
        &&& self.spec_conv_dim() <= m
        &&& self.spec_shared_size() <= m
        &&& 2 * self.spec_nq() <= m
        &&& self.spec_nkv() <= m
        &&& rows * self.d_model <= m
        &&& rows * self.spec_nq() <= m
        &&& rows * self.intermediate_size <= m
        &&& rows * self.spec_shared_size() <= m
        &&& rows * self.spec_topk() <= m
        &&& rows * self.spec_topk() * self.spec_expert_size() <= m
        &&& rows * self.spec_topk() * self.d_model <= m
        &&& self.num_experts * 4 <= usize::MAX
        &&& rows * self.d_model * 4 <= usize::MAX
        &&& self.num_experts * (self.spec_expert_size() * self.d_model) <= usize::MAX
        &&& rows * self.num_experts <= m
    }

    pub open spec fn spec_gdn_key_dim(&self) -> int {
        self.gdn_k_heads * self.gdn_head_dim
    }

    pub open spec fn spec_gdn_value_dim(&self) -> int {
        self.gdn_v_heads * self.gdn_head_dim
    }

    /// Expert FFN width: `moe_intermediate_size` when set, else `intermediate_size`.
    #[must_use]
    pub fn expert_size(&self) -> (n: usize)
        ensures
            n == self.spec_expert_size(),
    {
        if self.moe_intermediate_size > 0 {
            self.moe_intermediate_size
        } else {
            self.intermediate_size
        }
    }

    /// Shared-expert FFN width: the shared experts are stored as one dense MLP.
    #[must_use]
    pub fn shared_size(&self) -> (n: usize)
        requires
            self.spec_shared_size() <= usize::MAX,
        ensures
            n == self.spec_shared_size(),
    {
        self.n_shared_experts * self.expert_size()
    }

    /// YaRN enabled: a factor above one over a known original length.
    #[must_use]
    pub fn yarn(&self) -> (b: bool)
        ensures
            b == self.spec_yarn(),
    {
        F32_ONE < self.rope_yarn_factor && self.rope_yarn_factor <= F32_INFINITY
            && self.rope_yarn_orig_len > 0
    }

    /// The rotary cosines and sines are scaled: YaRN is on, and not both of its scales are
    /// absent. An absent `mscale` is one, an absent `mscale_all_dim` is zero.
    #[must_use]
    pub fn scales_rotation(&self) -> (b: bool)
        ensures
            b == (self.spec_yarn() && !(self.rope_yarn_mscale == F32_ONE
                && self.rope_yarn_mscale_all_dim == F32_ZERO)),
    {
        self.yarn() && !(self.rope_yarn_mscale == F32_ONE && self.rope_yarn_mscale_all_dim
            == F32_ZERO)
    }

    /// Rotary coordinates per head. `product` is `head_dim * rope_rotary_pct` truncated to an
    /// integer; it is rounded down to whole pairs and kept between one pair and the head. Full
    /// rotation returns `head_dim`.
    #[must_use]
    pub fn attn_rotary_dim(&self, product: usize) -> (n: usize)
        ensures
            n == if at_least_one(self.rope_rotary_pct) {
                self.head_dim as nat
            } else {
                vstd::math::min(
                    vstd::math::max(even_part(product as nat) as int, 2),
                    self.head_dim as int,
                ) as nat
            },
    {
        if F32_ONE <= self.rope_rotary_pct && self.rope_rotary_pct <= F32_INFINITY {
            self.head_dim
        } else {
            let even: usize = product - product % 2;
            let at_least: usize = if even < 2 {
                2
            } else {
                even
            };
            if at_least > self.head_dim {
                self.head_dim
            } else {
                at_least
            }
        }
    }

    /// Whether layer `li` is a full-attention layer (true) or a linear-attention layer (false).
    #[must_use]
    pub fn layer_is_full_attn(&self, li: usize) -> (b: bool)
        requires
            self.full_attention_interval > 0 ==> li < usize::MAX,
        ensures
            b == self.spec_full_attn(li as nat),
    {
        self.full_attention_interval == 0 || (li + 1) % self.full_attention_interval == 0
    }

    /// The config describes a hybrid stack with linear-attention layers.
    #[must_use]
    pub fn gdn_enabled(&self) -> (b: bool)
        ensures
            b == (self.full_attention_interval > 0 && self.gdn_v_heads > 0),
    {
        self.full_attention_interval > 0 && self.gdn_v_heads > 0
    }

    /// GDN key width.
    #[must_use]
    pub fn gdn_key_dim(&self) -> (n: usize)
        requires
            self.spec_gdn_key_dim() <= usize::MAX,
        ensures
            n == self.spec_gdn_key_dim(),
    {
        self.gdn_k_heads * self.gdn_head_dim
    }

    /// GDN value width (input to the gated RMSNorm and the output projection).
    #[must_use]
    pub fn gdn_value_dim(&self) -> (n: usize)
        requires
            self.spec_gdn_value_dim() <= usize::MAX,
        ensures
            n == self.spec_gdn_value_dim(),
    {
        self.gdn_v_heads * self.gdn_head_dim
    }

    /// Settings common to the standard-attention families.
    fn dense(
        vocab_size: usize,
        d_model: usize,
        n_layers: usize,
        n_heads: usize,
        n_kv_heads: usize,
        head_dim: usize,
        intermediate_size: usize,
        max_seq_len: usize,
        rope_theta: F32Bits,
    ) -> (c: Self)
        ensures
            c == dense_config(
                vocab_size,
                d_model,
                n_layers,
                n_heads,
                n_kv_heads,
                head_dim,
                intermediate_size,
                max_seq_len,
                rope_theta,
            ),
    {
        Config {
            dtype: ModelDType::F32,
            vocab_size,
            d_model,
            n_layers,
            n_heads,
            n_kv_heads,
            head_dim,
            intermediate_size,
            moe_intermediate_size: 0,
            num_experts: 0,
            num_experts_per_tok: 0,
            max_seq_len,
            rms_eps: F32_1E_MINUS_6,
            rope_theta,
            qk_norm: false,
            attn_output_gate: false,
            zero_centered_norm: false,
            q_lora_rank: 0,
            kv_lora_rank: 0,
            qk_nope_head_dim: 0,
            qk_rope_head_dim: 0,
            v_head_dim: 0,
            moe_grouped: true,
            n_shared_experts: 0,
            moe_norm_topk: true,
            moe_routed_scale: F32_ONE,
            rope_yarn_factor: F32_ZERO,
            rope_yarn_orig_len: 0,
            rope_yarn_beta_fast: F32_ZERO,
            rope_yarn_beta_slow: F32_ZERO,
            rope_yarn_mscale: F32_ONE,
            rope_yarn_mscale_all_dim: F32_ZERO,
            rope_interleave: false,
            rope_rotary_pct: F32_ONE,
            full_attention_interval: 0,
            gdn_k_heads: 0,
            gdn_v_heads: 0,
            gdn_head_dim: 0,
            gdn_conv_kernel: 0,
            step_profile: false,
        }
    }

    /// Minimal config for tests: fast to run, exercises GQA and capture.
    #[must_use]
    pub fn tiny() -> (c: Self)
        ensures
            c == dense_config(1024, 128, 2, 4, 2, 32, 512, 256, F32_1E4),
    {
        Config::dense(1024, 128, 2, 4, 2, 32, 512, 256, F32_1E4)
    }

    /// Qwen3 dense-family config (QK-norm, 3x hidden MLP, theta 1e6).
    #[must_use]
    pub fn qwen3(
        hidden_size: usize,
        n_layers: usize,
        n_heads: usize,
        n_kv_heads: usize,
        vocab_size: usize,
        max_seq_len: usize,
    ) -> (c: Self)
        requires
            n_heads > 0,
            3 * hidden_size <= usize::MAX,
        ensures
            c == (Config {
                qk_norm: true,
                ..dense_config(
                    vocab_size,
                    hidden_size,
                    n_layers,
                    n_heads,
                    n_kv_heads,
                    hidden_size / n_heads,
                    (3 * hidden_size) as usize,
                    max_seq_len,
                    F32_1E6,
                )
            }),
    {
        let mut c = Config::dense(
            vocab_size,
            hidden_size,
            n_layers,
            n_heads,
            n_kv_heads,
            hidden_size / n_heads,
            3 * hidden_size,
            max_seq_len,
            F32_1E6,
        );
        c.qk_norm = true;
        c
    }

    /// Llama-style config from raw hyperparameters.
    #[must_use]
    pub fn llama(
        hidden_size: usize,
        n_layers: usize,
        n_heads: usize,
        n_kv_heads: usize,
        vocab_size: usize,
        max_seq_len: usize,
    ) -> (c: Self)
        requires
            n_heads > 0,
            4 * hidden_size <= usize::MAX,
        ensures
            c == dense_config(
                vocab_size,
                hidden_size,
                n_layers,
                n_heads,
                n_kv_heads,
                hidden_size / n_heads,
                (4 * hidden_size) as usize,
                max_seq_len,
                F32_1E4,
            ),
    {
        Config::dense(
            vocab_size,
            hidden_size,
            n_layers,
            n_heads,
            n_kv_heads,
            hidden_size / n_heads,
            4 * hidden_size,
            max_seq_len,
            F32_1E4,
        )
    }

    /// A more representative config for benchmarking.
    #[must_use]
    pub fn small() -> (c: Self)
        ensures
            c == dense_config(32000, 512, 2, 8, 4, 64, 2048, 1024, F32_1E4),
    {
        Config::dense(32000, 512, 2, 8, 4, 64, 2048, 1024, F32_1E4)
    }

    /// MLA config (low-rank Q and compressed KV); rotates interleaved pairs.
    #[must_use]
    pub fn mla(
        hidden_size: usize,
        n_layers: usize,
        n_heads: usize,
        vocab_size: usize,
        max_seq_len: usize,
        q_lora_rank: usize,
        kv_lora_rank: usize,
        qk_nope_head_dim: usize,
        qk_rope_head_dim: usize,
        v_head_dim: usize,
    ) -> (c: Self)
        requires
            qk_nope_head_dim + qk_rope_head_dim <= usize::MAX,
            4 * hidden_size <= usize::MAX,
        ensures
            c == (Config {
                q_lora_rank,
                kv_lora_rank,
                qk_nope_head_dim,
                qk_rope_head_dim,
                v_head_dim,
                rope_interleave: true,
                ..dense_config(
                    vocab_size,
                    hidden_size,
                    n_layers,
                    n_heads,
                    n_heads,
                    (qk_nope_head_dim + qk_rope_head_dim) as usize,
                    (4 * hidden_size) as usize,
                    max_seq_len,
                    F32_1E4,
                )
            }),
    {
        let mut c = Config::dense(
            vocab_size,
            hidden_size,
            n_layers,
            n_heads,
            n_heads,
            qk_nope_head_dim + qk_rope_head_dim,
            4 * hidden_size,
            max_seq_len,
            F32_1E4,
        );
        c.q_lora_rank = q_lora_rank;
        c.kv_lora_rank = kv_lora_rank;
        c.qk_nope_head_dim = qk_nope_head_dim;
        c.qk_rope_head_dim = qk_rope_head_dim;
        c.v_head_dim = v_head_dim;
        c.rope_interleave = true;
        c
    }

    /// Hybrid config: gated-DeltaNet linear attention with every fourth layer full attention,
    /// QK-norm, output gate, zero-centered norms, quarter rotary, theta 1e7. Without GDN value
    /// heads every layer is full attention.
    #[must_use]
    pub fn qwen3_5(
        hidden_size: usize,
        n_layers: usize,
        n_heads: usize,
        n_kv_heads: usize,
        head_dim: usize,
        intermediate_size: usize,
        vocab_size: usize,
        max_seq_len: usize,
        gdn_k_heads: usize,
        gdn_v_heads: usize,
        gdn_head_dim: usize,
        gdn_conv_kernel: usize,
    ) -> (c: Self)
        ensures
            c == (Config {
                qk_norm: true,
                attn_output_gate: true,
                zero_centered_norm: true,
                rope_rotary_pct: F32_QUARTER,
                full_attention_interval: if gdn_v_heads > 0 {
                    4
                } else {
                    0
                },
                gdn_k_heads,
                gdn_v_heads,
                gdn_head_dim,
                gdn_conv_kernel,
                ..dense_config(
                    vocab_size,
                    hidden_size,
                    n_layers,
                    n_heads,
                    n_kv_heads,
                    head_dim,
                    intermediate_size,
                    max_seq_len,
                    F32_1E7,
                )
            }),
    {
        let mut c = Config::dense(
            vocab_size,
            hidden_size,
            n_layers,
            n_heads,
            n_kv_heads,
            head_dim,
            intermediate_size,
            max_seq_len,
            F32_1E7,
        );
        c.qk_norm = true;
        c.attn_output_gate = true;
        c.zero_centered_norm = true;
        c.rope_rotary_pct = F32_QUARTER;
        if gdn_v_heads > 0 {
            c.full_attention_interval = 4;
        }
        c.gdn_k_heads = gdn_k_heads;
        c.gdn_v_heads = gdn_v_heads;
        c.gdn_head_dim = gdn_head_dim;
        c.gdn_conv_kernel = gdn_conv_kernel;
        c
    }
}

} // verus!
