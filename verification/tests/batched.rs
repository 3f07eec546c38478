use mach_model::batched::{BatchedError, BatchedModel};
use mach_model::buffers::{Memory, Sizes, Slice};
use mach_model::config::{Config, ModelDType};
use mach_model::device::{Buf, DeviceCopy, ExpertSource, GemmPath, Op, Tensor, Weight};
use mach_model::upload::{LayerLens, ModelLens, Source, TensorLens};

fn extent(len: usize) -> TensorLens {
    TensorLens {
        len,
        packed: len / 2,
        scales: len / 32,
    }
}

fn layer(c: &Config) -> LayerLens {
    let none = extent(0);
    let d = c.d_model;
    let q = c.n_heads * c.head_dim;
    let kv = c.n_kv_heads * c.head_dim;
    let experts = c.num_experts * c.moe_intermediate_size * d;
    LayerLens {
        wq: extent(q * d),
        wk: extent(kv * d),
        wv: extent(kv * d),
        wo: extent(d * q),
        rms_attn: extent(d),
        wg: extent(c.intermediate_size * d),
        wu: extent(c.intermediate_size * d),
        wd: extent(d * c.intermediate_size),
        rms_mlp: extent(d),
        bq: none,
        bk: none,
        bv: none,
        q_norm: none,
        k_norm: none,
        mla_q_a: none,
        mla_q_a_norm: none,
        mla_q_b: none,
        mla_q_rope: none,
        mla_kv_a: none,
        mla_kv_a_norm: none,
        mla_kv_b: none,
        mla_o: none,
        moe_router: extent(c.num_experts * d),
        moe_wg: extent(experts),
        moe_wu: extent(experts),
        moe_wd: extent(experts),
        shared_wg: none,
        shared_wu: none,
        shared_wd: none,
        gdn_in_qkv: none,
        gdn_in_z: none,
        gdn_in_a: none,
        gdn_in_b: none,
        gdn_out: none,
        gdn_conv_w: none,
        gdn_a_log: none,
        gdn_dt_bias: none,
        gdn_norm: none,
    }
}

fn lens(c: &Config) -> ModelLens {
    ModelLens {
        tok_emb: extent(c.vocab_size * c.d_model),
        rms_final: extent(c.d_model),
        lm_head: extent(c.vocab_size * c.d_model),
        layers: vec![layer(c); c.n_layers],
    }
}

fn tiny(batch: usize) -> BatchedModel {
    let c = Config::tiny();
    BatchedModel::new(c, &lens(&c), batch, 0).unwrap()
}

fn experts() -> Config {
    Config {
        num_experts: 4,
        num_experts_per_tok: 2,
        moe_intermediate_size: 64,
        ..Config::tiny()
    }
}

#[test]
fn check_paged_support_mirrors_paged_guards() {
    let cfg = Config::tiny(); // max_seq_len 256; dense F32
    assert!(BatchedModel::check_paged_support(&cfg, 64).is_ok());

    // Page geometry: zero and non-divisor page sizes are rejected.
    assert!(BatchedModel::check_paged_support(&cfg, 0).is_err());
    assert!(BatchedModel::check_paged_support(&cfg, 48).is_err());

    // Attention-memory bound: max_seq_len beyond 16128 tokens.
    let mut big = Config::tiny();
    big.max_seq_len = 32768;
    assert!(BatchedModel::check_paged_support(&big, 64).is_err());

    // MLA is F32-only: F16 MLA rejected, F32 MLA accepted.
    let mut mla = Config::mla(128, 2, 4, 1024, 256, 32, 16, 16, 8, 16);
    mla.dtype = ModelDType::F16;
    assert!(BatchedModel::check_paged_support(&mla, 64).is_err());
    mla.dtype = ModelDType::F32;
    assert!(BatchedModel::check_paged_support(&mla, 64).is_ok());
}

#[test]
fn paged_support_names_the_reason() {
    let cfg = Config::tiny();
    assert_eq!(
        BatchedModel::check_paged_support(&cfg, 48),
        Err(BatchedError::PageSize {
            tokens_per_page: 48,
            max_seq_len: 256
        })
    );
    let big = Config {
        max_seq_len: 32768,
        ..cfg
    };
    assert_eq!(
        BatchedModel::check_paged_support(&big, 64),
        Err(BatchedError::AttentionMemory { max_seq_len: 32768 })
    );
    let mla = Config {
        dtype: ModelDType::F16,
        ..Config::mla(128, 2, 4, 1024, 256, 32, 16, 16, 8, 16)
    };
    assert_eq!(
        BatchedModel::check_paged_support(&mla, 64),
        Err(BatchedError::PagedMlaHalf)
    );
    let gdn = Config {
        full_attention_interval: 4,
        gdn_k_heads: 2,
        gdn_v_heads: 2,
        gdn_head_dim: 32,
        gdn_conv_kernel: 4,
        ..cfg
    };
    assert_eq!(
        BatchedModel::check_paged_support(&gdn, 64),
        Err(BatchedError::PagedLinearAttention)
    );
}

#[test]
fn packed_weights_compute_in_half_precision() {
    let c = Config::tiny();
    let err = |r: Result<BatchedModel, BatchedError>| r.err();
    assert_eq!(
        err(BatchedModel::with_rows_q4(c, &lens(&c), 2, 4, 0)),
        Some(BatchedError::NeedsHalf)
    );
    assert_eq!(
        err(BatchedModel::from_fp8(c, &lens(&c), 2, 0)),
        Some(BatchedError::NeedsHalf)
    );
    let half = Config {
        dtype: ModelDType::F16,
        ..c
    };
    assert!(BatchedModel::with_rows_q4(half, &lens(&half), 2, 4, 0).is_ok());
    let mla = Config {
        dtype: ModelDType::F16,
        ..Config::mla(128, 2, 4, 1024, 256, 32, 16, 16, 8, 16)
    };
    assert_eq!(
        err(BatchedModel::with_rows_q4_all(mla, &lens(&mla), 2, 4, 0)),
        Some(BatchedError::DenseQ4Mla)
    );
    let huge = Config {
        vocab_size: usize::MAX,
        ..c
    };
    assert_eq!(
        err(BatchedModel::new(huge, &lens(&c), 2, 0)),
        Some(BatchedError::TooLarge)
    );
}

#[test]
fn buffers_have_their_sizes() {
    let c = Config::tiny();
    let m = BatchedModel::with_rows(c, &lens(&c), 2, 8, 0).unwrap();
    assert_eq!(m.batch(), 2);
    assert_eq!(m.row_capacity(), 8);
    assert_eq!(m.max_seq_len(), 256);
    let plan = m.alloc_buffers();
    let bytes = |buf: Buf| {
        let found: Vec<usize> = plan.iter().filter(|a| a.buf == buf).map(|a| a.bytes).collect();
        assert_eq!(found.len(), 1, "{buf:?}");
        found[0]
    };
    assert_eq!(bytes(Buf::X), 8 * 128 * 4);
    assert_eq!(bytes(Buf::Logits), 8 * 1024 * 4);
    // Two slots of 256 positions with two heads of 32 dimensions.
    assert_eq!(bytes(Buf::KCache(0)), 2 * 256 * 2 * 32 * 4);
    assert_eq!(bytes(Buf::VCache(1)), 2 * 256 * 2 * 32 * 4);
    assert!(plan
        .iter()
        .any(|a| a.buf == Buf::TokensHost && a.memory == Memory::Pinned));
    assert!(!plan.iter().any(|a| matches!(a.buf, Buf::MlaKCache(_))));
}

#[test]
fn weights_are_uploaded_once() {
    let c = Config::tiny();
    let w = lens(&c);
    let full = tiny(2).upload_weights(&w);
    let find = |list: &[mach_model::upload::Upload], layer, tensor| {
        list.iter()
            .filter(|u| u.weight.layer == layer && u.weight.tensor == tensor)
            .map(|u| (u.weight.copy, u.source))
            .collect::<Vec<_>>()
    };
    assert_eq!(
        find(&full, None, Tensor::LmHead),
        vec![(DeviceCopy::F32, Source::AsIs)]
    );
    assert_eq!(
        find(&full, Some(1), Tensor::Wd),
        vec![(DeviceCopy::F32, Source::AsIs)]
    );
    assert!(find(&full, Some(0), Tensor::Bq).is_empty());

    let half = Config {
        dtype: ModelDType::F16,
        ..c
    };
    let q4 = BatchedModel::with_rows_q4_all(half, &w, 2, 2, 0)
        .unwrap()
        .upload_weights(&w);
    assert_eq!(
        find(&q4, Some(0), Tensor::Wq),
        vec![(DeviceCopy::Q4, Source::Packed)]
    );
}

#[test]
fn dense_forward_pass() {
    let mut m = tiny(2);
    let work = m.decode_step(&[5, 7]).unwrap();
    assert_eq!(work.rows, 2);
    assert!(!work.upload_offsets);
    assert_eq!(&m.staged_tokens()[..], &[5, 7]);
    assert_eq!(&m.staged_positions()[..], &[0, 0]);
    assert_eq!(&m.staged_slots()[..], &[0, 1]);
    let norm = |tensor, layer| Weight {
        layer,
        tensor,
        copy: DeviceCopy::F32,
    };
    assert_eq!(
        work.ops[0],
        Op::Embed {
            copy: DeviceCopy::F32,
            cols: 128,
            rows: 2
        }
    );
    assert_eq!(
        work.ops[1],
        Op::RmsNorm {
            x: Buf::X,
            w: norm(Tensor::RmsAttn, Some(0)),
            y: Buf::Xn,
            rows: 2,
            cols: 128
        }
    );
    let last = work.ops.last().unwrap();
    assert_eq!(
        *last,
        Op::Gemm {
            path: GemmPath::BatchedF32,
            out: Buf::Logits,
            x: Buf::Xn,
            w: norm(Tensor::LmHead, None),
            n: 1024,
            k: 128,
            rows: 2
        }
    );
    // Every layer stores its keys and values and adds to the residual twice.
    let stores = work
        .ops
        .iter()
        .filter(|o| matches!(o, Op::KvStore { .. }))
        .count();
    let adds = work
        .ops
        .iter()
        .filter(|o| matches!(o, Op::Add { .. }))
        .count();
    assert_eq!((stores, adds), (4, 4));
    m.complete_decode_step(&work);
    let next = m.decode_step(&[1, 2]).unwrap();
    assert_eq!(&m.staged_positions()[..], &[1, 1]);
    assert_eq!(next.ops.len(), work.ops.len());
}

#[test]
fn a_full_sequence_stops_decoding() {
    let c = Config {
        max_seq_len: 2,
        ..Config::tiny()
    };
    let mut m = BatchedModel::new(c, &lens(&c), 1, 0).unwrap();
    for _ in 0..2 {
        let work = m.decode_step(&[1]).unwrap();
        m.complete_decode_step(&work);
    }
    assert_eq!(
        m.decode_step(&[1]).err(),
        Some(BatchedError::SequenceFull { seq: 0 })
    );
    let cleared = m.reset_state();
    assert!(cleared.iter().any(|s| s.buf == Buf::KCache(0)));
    assert!(m.decode_step(&[1]).is_ok());
}

#[test]
fn explicit_rows_are_checked() {
    let c = Config::tiny();
    let mut m = BatchedModel::with_rows(c, &lens(&c), 2, 4, 0).unwrap();
    assert_eq!(
        m.decode_step_explicit(&[1], &[256], &[0], true).err(),
        Some(BatchedError::PositionOutOfRange {
            pos: 256,
            max_seq_len: 256
        })
    );
    assert_eq!(
        m.decode_step_explicit(&[1], &[0], &[2], true).err(),
        Some(BatchedError::RowSlotOutOfRange { slot: 2, batch: 2 })
    );
    let work = m
        .decode_step_explicit(&[4, 5, 6], &[0, 1, 9], &[1, 1, 0], false)
        .unwrap();
    assert_eq!(work.rows, 3);
    assert_eq!(&m.staged_tokens()[..3], &[4, 5, 6]);
    assert_eq!(&m.staged_positions()[..3], &[0, 1, 9]);
    assert_eq!(&m.staged_slots()[..3], &[1, 1, 0]);

    let gdn = Config {
        full_attention_interval: 2,
        gdn_k_heads: 2,
        gdn_v_heads: 2,
        gdn_head_dim: 32,
        gdn_conv_kernel: 4,
        ..c
    };
    let mut m = BatchedModel::with_rows(gdn, &lens(&gdn), 2, 4, 0).unwrap();
    assert_eq!(
        m.decode_step_explicit(&[4, 5], &[0, 1], &[1, 1], false).err(),
        Some(BatchedError::DuplicateSlot { slot: 1 })
    );
}

#[test]
fn graphs_are_captured_once_per_row_count() {
    let c = Config {
        dtype: ModelDType::F16,
        ..Config::tiny()
    };
    let mut m = BatchedModel::with_rows(c, &lens(&c), 2, 4, 0).unwrap();
    m.set_decode_graph_enabled(true);
    let first = m.decode_step_explicit(&[1], &[0], &[0], true).unwrap();
    assert!(first.graph && first.capture);
    m.complete_capture(&first);
    assert_eq!(m.decode_graph_count(), 1);
    let again = m.decode_step_explicit(&[1], &[1], &[0], true).unwrap();
    assert!(again.graph && !again.capture);
    let wider = m
        .decode_step_explicit(&[1, 2], &[2, 0], &[0, 1], true)
        .unwrap();
    assert!(wider.capture);
    // Prompt rows never run as a graph.
    let mixed = m.decode_step_explicit(&[1], &[2], &[0], false).unwrap();
    assert!(!mixed.graph);
    m.capture_failed();
    let plain = m.decode_step_explicit(&[1], &[2], &[0], true).unwrap();
    assert!(!plain.graph && !plain.capture);
}

#[test]
fn block_tables_are_padded_and_checked() {
    let c = Config::tiny();
    let mut m = BatchedModel::with_paged_kv(c, &lens(&c), 2, 64, 0).unwrap();
    assert!(m.is_paged());
    assert_eq!(m.tokens_per_page(), 64);
    assert_eq!(m.max_pages_per_seq(), 4);
    assert_eq!(&m.block_tables()[..], &[0, 1, 2, 3, 4, 5, 6, 7]);
    assert_eq!(m.set_block_table(1, &[7, 2]), Ok((4, 8)));
    assert_eq!(&m.block_tables()[..], &[0, 1, 2, 3, 7, 2, 2, 2]);
    assert_eq!(
        m.set_block_table(2, &[0]),
        Err(BatchedError::SlotOutOfRange { slot: 2, batch: 2 })
    );
    assert_eq!(
        m.set_block_table(0, &[]),
        Err(BatchedError::TableLength {
            len: 0,
            max_pages: 4
        })
    );
    assert_eq!(
        m.set_block_table(0, &[8]),
        Err(BatchedError::PageOutOfRange {
            page: 8,
            pool_pages: 8
        })
    );
    assert_eq!(
        tiny(2).set_block_table(0, &[0]),
        Err(BatchedError::NotPaged)
    );
    let work = m.decode_step_explicit(&[3], &[0], &[1], true).unwrap();
    assert!(work.upload_offsets);
    assert_eq!(m.row_offsets()[0], 4);
    assert!(work
        .ops
        .iter()
        .any(|o| matches!(o, Op::KvStorePaged { tokens_per_page: 64, .. })));
}

#[test]
fn half_precision_scratch_covers_the_widest_product() {
    let bytes = |c: Config, buf: Buf| {
        Sizes {
            cfg: c,
            slots: 1,
            rows: 3,
        }
        .buffer_bytes(buf)
    };
    // The MLP is the widest input, the vocabulary the widest output.
    let c = Config {
        dtype: ModelDType::F16,
        ..Config::tiny()
    };
    assert_eq!(bytes(c, Buf::Xh), Some(3 * 512 * 2));
    assert_eq!(bytes(c, Buf::Yh), Some(3 * 1024 * 2));
    // The output projection of many heads reads more than the MLP.
    let heads = Config { n_heads: 64, ..c };
    assert_eq!(bytes(heads, Buf::Xh), Some(3 * 64 * 32 * 2));
    assert_eq!(bytes(heads, Buf::Yh), Some(3 * 64 * 32 * 2));
    // A gated query projection is twice as wide.
    let gated = Config {
        attn_output_gate: true,
        ..heads
    };
    assert_eq!(bytes(gated, Buf::Yh), Some(3 * 2 * 64 * 32 * 2));
    // Low-rank attention expands keys and values of all heads.
    let mla = Config {
        kv_lora_rank: 16,
        qk_nope_head_dim: 200,
        v_head_dim: 300,
        ..c
    };
    assert_eq!(bytes(mla, Buf::Xh), Some(3 * 4 * 300 * 2));
    assert_eq!(bytes(mla, Buf::Yh), Some(3 * 4 * 500 * 2));
    // Single precision converts nothing, and its scratch is no wider for it.
    let single = Config {
        dtype: ModelDType::F32,
        ..gated
    };
    assert_eq!(bytes(single, Buf::Xh), Some(3 * 512 * 2));
    assert_eq!(bytes(single, Buf::Yh), Some(3 * 64 * 32 * 2));
}

#[test]
fn sequences_move_between_slots() {
    let m = tiny(3);
    let moves = m.copy_seq_kv(2, 0, 5);
    assert_eq!(moves.len(), 4);
    let token = 2 * 32 * 4;
    for mv in &moves {
        assert_eq!(mv.src, 2 * 256 * token);
        assert_eq!(mv.dst, 0);
        assert_eq!(mv.bytes, 5 * token);
    }
}

#[test]
fn a_saved_anchor_restores() {
    let mut m = tiny(2);
    let work = m.decode_step(&[5, 7]).unwrap();
    m.complete_decode_step(&work);
    let reads = m.save_anchor(1, 6, 5).unwrap();
    let token = 2 * 32 * 4;
    assert_eq!(reads.kv.len(), 4);
    assert!(reads.kv.iter().all(|s| s.bytes == 6 * token));
    assert_eq!(reads.hidden.offset, 128 * 4);
    let sizes: Vec<(usize, usize)> = reads
        .kv
        .chunks(2)
        .map(|kv| (kv[0].bytes, kv[1].bytes))
        .collect();
    let writes = m.restore_anchor(0, 5, &sizes, 128).unwrap();
    assert!(writes.kv.iter().all(|s| s.offset == 0 && s.bytes == 6 * token));
    assert_eq!(writes.hidden.unwrap().offset, 0);
    m.decode_step(&[1, 1]).unwrap();
    assert_eq!(&m.staged_positions()[..], &[6, 1]);
}

#[test]
fn a_restored_anchor_gives_back_the_saved_bytes() {
    let mut m = tiny(3);
    let work = m.decode_step(&[5, 7, 9]).unwrap();
    m.complete_decode_step(&work);
    let sizes = Sizes {
        cfg: Config::tiny(),
        slots: 3,
        rows: 3,
    };
    let caches = [
        Buf::KCache(0),
        Buf::VCache(0),
        Buf::KCache(1),
        Buf::VCache(1),
        Buf::X,
    ];
    let mut memory: Vec<Vec<u8>> = caches
        .iter()
        .enumerate()
        .map(|(b, &buf)| {
            (0..sizes.buffer_bytes(buf).unwrap())
                .map(|i| (i * 31 + i / 251 + b * 7) as u8)
                .collect()
        })
        .collect();
    let at = |s: &Slice| {
        let b = caches.iter().position(|&c| c == s.buf).unwrap();
        (b, s.offset..s.offset + s.bytes)
    };
    let read = |memory: &Vec<Vec<u8>>, s: &Slice| {
        let (b, range) = at(s);
        memory[b][range].to_vec()
    };

    let reads = m.save_anchor(1, 6, 5).unwrap();
    let kv: Vec<Vec<u8>> = reads.kv.iter().map(|s| read(&memory, s)).collect();
    let hidden = read(&memory, &reads.hidden);
    let other = m.save_anchor(2, 256, 255).unwrap();
    let kept: Vec<Vec<u8>> = other.kv.iter().map(|s| read(&memory, s)).collect();

    let kv_sizes: Vec<(usize, usize)> = kv.chunks(2).map(|p| (p[0].len(), p[1].len())).collect();
    let writes = m.restore_anchor(0, 5, &kv_sizes, 128).unwrap();
    for (s, data) in writes.kv.iter().zip(&kv) {
        let (b, range) = at(s);
        memory[b][range].copy_from_slice(data);
    }
    let (b, range) = at(&writes.hidden.unwrap());
    memory[b][range].copy_from_slice(&hidden);

    let again = m.save_anchor(0, 6, 5).unwrap();
    let kv_again: Vec<Vec<u8>> = again.kv.iter().map(|s| read(&memory, s)).collect();
    assert_eq!(kv_again, kv);
    assert_eq!(read(&memory, &again.hidden), hidden);
    let still: Vec<Vec<u8>> = other.kv.iter().map(|s| read(&memory, s)).collect();
    assert_eq!(still, kept);
}

#[test]
fn anchors_are_checked() {
    let mut m = tiny(2);
    let token = 2 * 32 * 4;
    assert_eq!(
        m.save_anchor(2, 6, 5).err(),
        Some(BatchedError::SlotOutOfRange { slot: 2, batch: 2 })
    );
    assert_eq!(
        m.save_anchor(0, 6, 4).err(),
        Some(BatchedError::AnchorLength {
            token_idx: 4,
            tokens: 6
        })
    );
    // Beyond the context too.
    assert_eq!(
        m.save_anchor(2, 1000, 999).err(),
        Some(BatchedError::SlotOutOfRange { slot: 2, batch: 2 })
    );
    assert_eq!(
        m.save_anchor(0, 6, usize::MAX).err(),
        Some(BatchedError::AnchorLength {
            token_idx: usize::MAX,
            tokens: 6
        })
    );
    assert_eq!(
        m.restore_anchor(2, usize::MAX, &vec![], 128).err(),
        Some(BatchedError::SlotOutOfRange { slot: 2, batch: 2 })
    );
    assert_eq!(
        m.restore_anchor(0, 5, &vec![(token, token)], 128).err(),
        Some(BatchedError::AnchorLayers { got: 1, want: 2 })
    );
    assert_eq!(
        m.restore_anchor(0, 256, &vec![(0, 0), (0, 0)], 128).err(),
        Some(BatchedError::AnchorTooLong {
            prefix: 257,
            max_seq_len: 256
        })
    );
    assert_eq!(
        m.restore_anchor(0, 0, &vec![(token, token), (token, token + 4)], 128)
            .err(),
        Some(BatchedError::AnchorKvSize { layer: 1 })
    );
    // A hidden state of another width is left alone.
    let ok = m
        .restore_anchor(0, 0, &vec![(token, token), (token, token)], 64)
        .unwrap();
    assert!(ok.hidden.is_none());
}

#[test]
fn logits_are_read_by_rows() {
    let m = tiny(2);
    let s = m.read_logits().unwrap();
    assert_eq!((s.buf, s.offset, s.bytes), (Buf::Logits, 0, 2 * 1024 * 4));
    assert_eq!(
        m.read_logits_rows(3).err(),
        Some(BatchedError::RowCount {
            rows: 3,
            capacity: 2
        })
    );
}

#[test]
fn offloaded_experts_stay_on_the_host() {
    let c = experts();
    assert_eq!(
        tiny(1).forward_moe_cpu_batched(1).err(),
        Some(BatchedError::NoHostWeights)
    );
    let m = BatchedModel::with_expert_slots(c, &lens(&c), 1, 3, 2, 0).unwrap();
    let reads = m.forward_moe_cpu_batched(3).unwrap();
    assert_eq!(reads.ids.bytes, 3 * 2 * 4);
    assert_eq!(reads.residual.bytes, 3 * 128 * 4);
    let uploads = m.upload_weights(&lens(&c));
    assert!(!uploads.iter().any(|u| u.weight.tensor == Tensor::MoeWg));
}

#[test]
fn serial_experts_skip_empty_ones() {
    let c = Config {
        moe_grouped: false,
        ..experts()
    };
    let m = BatchedModel::with_rows(c, &lens(&c), 1, 4, 0).unwrap();
    let ops = m.host_experts(4, 0, ExpertSource::Resident, &vec![2, 0, 1, 0]);
    let two = m.host_experts(4, 0, ExpertSource::Resident, &vec![2, 0, 0, 0]);
    assert_eq!(ops.len(), 2 * two.len());
    assert!(m
        .host_experts(4, 0, ExpertSource::Resident, &vec![0, 0, 0, 0])
        .is_empty());
}

#[test]
fn snapshots_and_profiling_are_part_of_the_pass() {
    let c = Config {
        step_profile: true,
        ..Config::tiny()
    };
    let mut m = BatchedModel::new(c, &lens(&c), 1, 0).unwrap();
    let marks = |ops: &[Op]| {
        ops.iter()
            .filter(|o| matches!(o, Op::Record { .. }))
            .count()
    };
    let dumps = |ops: &[Op]| {
        ops.iter()
            .filter(|o| {
                matches!(
                    o,
                    Op::DumpEmbedding { .. } | Op::DumpMid { .. } | Op::DumpLayer { .. }
                )
            })
            .count()
    };
    // Start and end of the step, and three marks per layer.
    let work = m.decode_step(&[1]).unwrap();
    assert_eq!((marks(&work.ops), dumps(&work.ops)), (8, 0));
    m.disable_profiler();
    m.set_layer_dump();
    let work = m.decode_step(&[1]).unwrap();
    assert_eq!((marks(&work.ops), dumps(&work.ops)), (0, 5));
    m.clear_layer_dump();
    let work = m.decode_step(&[1]).unwrap();
    assert_eq!((marks(&work.ops), dumps(&work.ops)), (0, 0));
}

#[test]
fn experts_are_grouped_on_decode_steps() {
    let c = experts();
    let mut m = BatchedModel::with_rows(c, &lens(&c), 2, 8, 0).unwrap();
    let decode = m
        .decode_step_explicit(&[1, 2], &[0, 0], &[0, 1], true)
        .unwrap();
    assert!(decode.ops.contains(&Op::MoeGroupedGateUp {
        layer: 1,
        source: ExpertSource::Resident,
        rows: 4,
        inter: 64,
        d: 128,
        topk: 2
    }));
    let prefill = m
        .decode_step_explicit(&[1, 2], &[0, 1], &[0, 0], false)
        .unwrap();
    assert!(prefill.ops.contains(&Op::MoeHostExperts {
        layer: 0,
        source: ExpertSource::Resident
    }));
    assert!(!prefill
        .ops
        .iter()
        .any(|o| matches!(o, Op::MoeGroupedGateUp { .. })));
}

#[test]
fn experts_come_from_where_they_are() {
    let c = experts();
    let w = lens(&c);
    let offloaded = BatchedModel::with_expert_slots(c, &w, 1, 1, 2, 0)
        .unwrap()
        .decode_step(&[1])
        .unwrap();
    assert!(offloaded.ops.contains(&Op::MoeCpu {
        layer: 0,
        topk: 2,
        rows: 1,
        d: 128,
        inter: 64
    }));
    let prefetched = BatchedModel::with_prefill_buffer(c, &w, 1, 1, 0)
        .unwrap()
        .decode_step(&[1])
        .unwrap();
    assert!(prefetched.ops.contains(&Op::PrefetchReady { layer: 1 }));
    assert!(prefetched.ops.iter().any(|o| matches!(
        o,
        Op::MoeGroupedDown {
            source: ExpertSource::Prefetched,
            ..
        }
    )));
    let half = Config {
        dtype: ModelDType::F16,
        ..c
    };
    let packed = BatchedModel::with_rows_q4_device(half, &w, 1, 1, 0)
        .unwrap()
        .decode_step(&[1])
        .unwrap();
    assert!(packed.ops.iter().any(|o| matches!(
        o,
        Op::MoeGroupedDown {
            source: ExpertSource::Q4,
            ..
        }
    )));
    let expanded = BatchedModel::from_q4(half, &w, 1, 0)
        .unwrap()
        .decode_step(&[1])
        .unwrap();
    assert!(expanded.ops.iter().any(|o| matches!(
        o,
        Op::MoeGroupedDown {
            source: ExpertSource::F16,
            ..
        }
    )));
}

#[test]
fn wide_models_do_not_stage_rows() {
    // The GEMV stages at most 12288 values of a row.
    let wide = Config {
        dtype: ModelDType::F16,
        d_model: 12_416,
        ..Config::tiny()
    };
    let mut m = BatchedModel::new(wide, &lens(&wide), 1, 0).unwrap();
    let work = m.decode_step(&[1]).unwrap();
    assert!(!work.ops.iter().any(|o| matches!(o, Op::GemvF16Qkv { .. })));
    assert!(work.ops.iter().any(|o| matches!(
        o,
        Op::Gemm {
            path: GemmPath::BatchedF16,
            out: Buf::Q,
            ..
        }
    )));
    let narrow = Config {
        dtype: ModelDType::F16,
        ..Config::tiny()
    };
    let mut m = BatchedModel::new(narrow, &lens(&narrow), 1, 0).unwrap();
    let work = m.decode_step(&[1]).unwrap();
    assert!(work.ops.contains(&Op::GemvF16Qkv {
        layer: 0,
        q: Buf::Q,
        nq: 128,
        nkv: 64,
        k: 128,
        rows: 1
    }));
}
