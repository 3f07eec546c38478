use mach_model::config::{Config, ModelDType};

#[test]
fn families_have_their_shapes() {
    let t = Config::tiny();
    assert_eq!((t.vocab_size, t.d_model, t.n_layers), (1024, 128, 2));
    assert_eq!((t.n_heads, t.n_kv_heads, t.head_dim), (4, 2, 32));
    assert_eq!((t.intermediate_size, t.max_seq_len), (512, 256));
    assert_eq!(t.rms_eps, 1e-6f32.to_bits());
    assert_eq!(t.rope_theta, 10000.0f32.to_bits());
    assert_eq!(t.dtype, ModelDType::F32);
    assert!(t.moe_grouped && t.moe_norm_topk && !t.qk_norm);

    let s = Config::small();
    assert_eq!((s.vocab_size, s.d_model, s.max_seq_len), (32000, 512, 1024));
    assert_eq!((s.n_heads, s.n_kv_heads, s.head_dim), (8, 4, 64));

    let q = Config::qwen3(1024, 28, 16, 8, 151936, 4096);
    assert_eq!(q.head_dim, 64);
    assert_eq!(q.intermediate_size, 3072);
    assert_eq!(q.rope_theta, 1_000_000.0f32.to_bits());
    assert!(q.qk_norm);

    let l = Config::llama(2048, 16, 32, 8, 128256, 8192);
    assert_eq!((l.head_dim, l.intermediate_size), (64, 8192));
    assert!(!l.qk_norm);

    let m = Config::mla(128, 2, 4, 1024, 256, 32, 16, 16, 8, 16);
    assert_eq!((m.n_kv_heads, m.head_dim), (4, 24));
    assert_eq!((m.q_lora_rank, m.kv_lora_rank, m.v_head_dim), (32, 16, 16));
    assert!(m.rope_interleave);
}

#[test]
fn hybrid_stacks_alternate() {
    let h = Config::qwen3_5(5120, 64, 24, 4, 256, 17408, 248320, 4096, 16, 48, 128, 4);
    assert!(h.gdn_enabled());
    assert!(h.attn_output_gate && h.zero_centered_norm && h.qk_norm);
    assert_eq!(h.rope_theta, 10_000_000.0f32.to_bits());
    let full: Vec<usize> = (0..12).filter(|&li| h.layer_is_full_attn(li)).collect();
    assert_eq!(full, vec![3, 7, 11]);
    assert_eq!((h.gdn_key_dim(), h.gdn_value_dim()), (2048, 6144));
    // A quarter of 256.
    assert_eq!(h.attn_rotary_dim(64), 64);

    let plain = Config::qwen3_5(128, 2, 4, 2, 32, 512, 1024, 256, 0, 0, 0, 0);
    assert!(!plain.gdn_enabled());
    assert!((0..4).all(|li| plain.layer_is_full_attn(li)));
}

#[test]
fn rotary_widths_are_whole_pairs() {
    let full = Config::tiny();
    assert_eq!(full.attn_rotary_dim(7), 32);
    let partial = Config {
        rope_rotary_pct: 0.3f32.to_bits(),
        ..full
    };
    assert_eq!(partial.attn_rotary_dim(9), 8);
    assert_eq!(partial.attn_rotary_dim(0), 2);
    assert_eq!(partial.attn_rotary_dim(100), 32);
}

#[test]
fn expert_widths() {
    let c = Config {
        num_experts: 8,
        n_shared_experts: 2,
        ..Config::tiny()
    };
    assert_eq!((c.expert_size(), c.shared_size()), (512, 1024));
    let narrow = Config {
        moe_intermediate_size: 64,
        ..c
    };
    assert_eq!((narrow.expert_size(), narrow.shared_size()), (64, 128));
}

#[test]
fn yarn_needs_factor_and_length() {
    let on = Config {
        rope_yarn_factor: 40.0f32.to_bits(),
        rope_yarn_orig_len: 4096,
        ..Config::tiny()
    };
    assert!(on.yarn());
    let at = |factor: f32| Config {
        rope_yarn_factor: factor.to_bits(),
        ..on
    };
    assert!(!at(1.0).yarn());
    assert!(!at(-2.0).yarn());
    assert!(!at(f32::NAN).yarn());
    let no_len = Config {
        rope_yarn_orig_len: 0,
        ..on
    };
    assert!(!no_len.yarn());
}

#[test]
fn rotation_is_scaled_by_present_scales() {
    let absent = Config {
        rope_yarn_factor: 40.0f32.to_bits(),
        rope_yarn_orig_len: 4096,
        ..Config::tiny()
    };
    assert!(absent.yarn());
    assert!(!absent.scales_rotation());
    let both = Config {
        rope_yarn_mscale: 0.707f32.to_bits(),
        rope_yarn_mscale_all_dim: 0.707f32.to_bits(),
        ..absent
    };
    assert!(both.scales_rotation());
    let off = Config {
        rope_yarn_factor: 0.0f32.to_bits(),
        ..both
    };
    assert!(!off.scales_rotation());
}
