use mach_model::device::{Buf, DeviceCopy, ExpertSource, GemmPath, Op, Run, Tensor, Weight};
use mach_model::kernels::{
    all_kernels, loaded_kernels, HipKernels, Kernel, KernelCache, LaunchError,
};
use mach_model::op_launch::Dispatch;

fn kernels() -> HipKernels {
    HipKernels::new("gfx1100".to_string(), &KernelCache::new()).0
}

#[test]
fn kernel_count_matches_documented_gate() {
    assert_eq!(all_kernels().len(), 51);
}

#[test]
fn kernels_have_distinct_entry_points() {
    let mut names: Vec<&str> = all_kernels().iter().map(|k| k.name()).collect();
    assert!(names.contains(&"kv_store_batched_f16"));
    assert!(names.contains(&"attn_decode_paged_mla"));
    names.sort();
    names.dedup();
    assert_eq!(names.len(), 51);
}

#[test]
fn kernels_compile_once_per_architecture() {
    let mut cache = KernelCache::new();
    let (k, first) = HipKernels::new("gfx1100".to_string(), &cache);
    assert_eq!(k.arch(), "gfx1100");
    assert_eq!(first.len(), 50);
    assert_eq!(first[0].kernel, Kernel::EmbedGather);
    assert_eq!(first[49].kernel, Kernel::MoeScatterAll);
    for load in &first {
        assert!(!load.cached);
        cache.insert("gfx1100".to_string(), load.kernel);
    }
    let (_, second) = HipKernels::new("gfx1100".to_string(), &cache);
    assert!(second.iter().all(|l| l.cached));
    let (_, other) = HipKernels::new("gfx90a".to_string(), &cache);
    assert!(other.iter().all(|l| !l.cached));
    assert!(cache.contains(&"gfx1100".to_string(), Kernel::Rope));
    assert_eq!(loaded_kernels().len(), 50);
}

#[test]
fn element_kernels_round_up_to_blocks() {
    let k = kernels();
    assert_eq!(k.launch_add(0).grid, (0, 1, 1));
    assert_eq!(k.launch_add(1).grid, (1, 1, 1));
    assert_eq!(k.launch_add(256).grid, (1, 1, 1));
    assert_eq!(k.launch_add(257).grid, (2, 1, 1));
    assert_eq!(k.launch_silu_mul(i32::MAX).grid, (8_388_608, 1, 1));
    assert_eq!(k.launch_add_bias(3, 100).grid, (2, 1, 1));
    assert_eq!(k.launch_rope(4, 8, 64).grid, (2, 1, 1));
    assert_eq!(k.launch_rope_batched(2, 8, 4, 64).grid, (4, 1, 1));
    assert_eq!(k.launch_kv_store_batched(2, 4, 64).kernel.name(), "kv_store_batched");
    assert_eq!(k.launch_mla_assemble_kv(4, 16, 8, 32).grid, (1, 1, 1));
    assert_eq!(k.launch_mla_assemble_kv_batched(8, 4, 16, 8, 32).grid, (4, 1, 1));
    assert_eq!(k.launch_embed_batched(300, 7).grid, (2, 7, 1));
    assert_eq!(k.launch_moe_scatter_all(0, 64).grid, (1, 1, 1));
    assert_eq!(k.launch_moe_grouped_gate_up(6, 96, true).kernel, Kernel::MoeGroupedGateUpHalf);
    assert_eq!(k.launch_moe_grouped_down(6, 96, false).block, 128);
}

#[test]
fn attention_scores_fit_shared_memory() {
    let k = kernels();
    let l = k.launch_attn_decode(8, 4096).unwrap();
    assert_eq!(l.grid, (8, 1, 1));
    assert_eq!(l.shared, (4096 + 256) * 4);
    assert!(k.launch_attn_decode(8, 16_128).is_ok());
    assert_eq!(
        k.launch_attn_decode(8, 16_129),
        Err(LaunchError::SharedMemory { floats: 16_385 })
    );
    assert_eq!(
        k.launch_mla_attn_decode(8, 20_000),
        Err(LaunchError::SharedMemory { floats: 20_256 })
    );
    assert_eq!(k.launch_attn_decode_paged(2, 8, 64, 4).shared, (256 + 256) * 4);
    assert_eq!(k.launch_attn_decode_batched(2, 8, 1024).grid, (16, 1, 1));
}

#[test]
fn prefill_kernel_is_bounded() {
    let k = kernels();
    assert_eq!(k.launch_attn_prefill_f16(64, 8, 64).unwrap().grid, (8, 1, 1));
    assert_eq!(
        k.launch_attn_prefill_f16(65, 8, 64),
        Err(LaunchError::PrefillGeometry {
            rows: 65,
            head_dim: 64
        })
    );
    assert!(k.launch_attn_prefill_f16(64, 8, 65).is_err());
}

#[test]
fn grouped_query_kernel_checks_heads() {
    let k = kernels();
    let l = k.launch_attn_decode_batched_f16_gqa(3, 32, 4, 128).unwrap();
    assert_eq!(l.grid, (12, 1, 1));
    assert_eq!(l.shared, 8 * 4096);
    let refused = |heads, kv, dim| {
        k.launch_attn_decode_batched_f16_gqa(1, heads, kv, dim)
            == Err(LaunchError::GqaGeometry {
                heads,
                kv_heads: kv,
                head_dim: dim,
            })
    };
    assert!(refused(32, 4, 96));
    assert!(refused(32, 4, 4));
    assert!(refused(32, 4, 512));
    assert!(refused(32, 4, 0));
    assert!(refused(30, 4, 128));
    assert!(refused(34, 2, 128));
    assert!(refused(0, 2, 128));
}

#[test]
fn gathering_weights_is_bounded() {
    let k = kernels();
    assert_eq!(k.launch_moe_gather_weights(64, 32, 2).unwrap().grid, (16, 1, 1));
    assert_eq!(
        k.launch_moe_gather_weights(65_536, 65_536, 1),
        Err(LaunchError::GridTooLarge)
    );
    assert_eq!(
        k.launch_moe_gather_weights(65_535, 65_537, 1).unwrap().grid.0,
        16_777_216
    );
}

#[test]
fn products_follow_the_row_major_layout() {
    let k = kernels();
    let one = k.gemm(64, 32);
    assert_eq!((one.m, one.n, one.k), (1, 64, 32));
    assert_eq!((one.lda, one.ldb, one.ldc), (1, 32, 1));
    assert!(!one.transpose_a && !one.transpose_b);
    let many = k.gemm_batched(5, 64, 32);
    assert_eq!((many.m, many.n, many.k), (64, 5, 32));
    assert_eq!((many.lda, many.ldb, many.ldc), (32, 32, 64));
    assert!(many.transpose_a && !many.transpose_b && many.weights_first);
    let (cast, product, back) = k.gemm_batched_f16(5, 64, 32);
    assert_eq!(cast.kernel, Kernel::CastToHalf);
    assert_eq!(product, many);
    assert_eq!(back.grid, (2, 1, 1));
    assert_eq!(k.launch_gemv_f16(65, 2048, 3).grid, (9, 3, 1));
    assert_eq!(k.launch_gemv_f16(65, 2048, 3).shared, 8192);
}

fn kernel_of(op: Op) -> (Kernel, (u32, u32, u32), u32) {
    match kernels().dispatch(&op) {
        Ok(Dispatch::Kernel(l)) => (l.kernel, l.grid, l.shared),
        other => panic!("{other:?}"),
    }
}

#[test]
fn operations_pick_their_kernels() {
    let embed = |copy| Op::Embed {
        copy,
        cols: 300,
        rows: 2,
    };
    assert_eq!(
        kernel_of(embed(DeviceCopy::F32)),
        (Kernel::EmbedBatched, (2, 2, 1), 0)
    );
    assert_eq!(
        kernel_of(embed(DeviceCopy::F16)),
        (Kernel::EmbedGatherHalf, (2, 2, 1), 0)
    );
    assert_eq!(
        kernels().dispatch(&embed(DeviceCopy::Q4)),
        Ok(Dispatch::Other)
    );
    let attend = |half| Op::AttnBatched {
        half,
        k: Buf::KCache(0),
        v: Buf::VCache(0),
        rows: 3,
        heads: 8,
        kv_heads: 2,
        dim: 64,
        max_seq: 256,
    };
    assert_eq!(
        kernel_of(attend(false)),
        (Kernel::AttnDecodeBatched, (24, 1, 1), 2048)
    );
    assert_eq!(
        kernel_of(attend(true)),
        (Kernel::AttnDecodeBatchedHalfGqa, (6, 1, 1), 4 * 4096)
    );
    let down = |source| Op::MoeGroupedDown {
        layer: 0,
        source,
        rows: 4,
        d: 32,
        inter: 16,
    };
    assert_eq!(
        kernel_of(down(ExpertSource::Q4)).0,
        Kernel::MoeGroupedDownQ4
    );
    assert_eq!(
        kernel_of(down(ExpertSource::F16)).0,
        Kernel::MoeGroupedDownHalf
    );
    assert_eq!(
        kernel_of(down(ExpertSource::Prefetched)).0,
        Kernel::MoeGroupedDown
    );
}

#[test]
fn projections_pick_their_path() {
    let gemm = |path, k| Op::Gemm {
        path,
        out: Buf::Q,
        x: Buf::Xn,
        w: Weight {
            layer: Some(0),
            tensor: Tensor::Wq,
            copy: DeviceCopy::F16,
        },
        n: 64,
        k,
        rows: 5,
    };
    let k = kernels();
    assert_eq!(
        kernel_of(gemm(GemmPath::GemvF16, 128)),
        (Kernel::GemvHalf, (8, 5, 1), 512)
    );
    assert_eq!(
        k.dispatch(&gemm(GemmPath::GemvF16, 12_289)),
        Err(LaunchError::Dimensions)
    );
    assert_eq!(
        k.dispatch(&gemm(GemmPath::BatchedF32, 128)),
        Ok(Dispatch::Gemm(k.gemm_batched(5, 64, 128)))
    );
    let (cast, product, back) = k.gemm_batched_f16(5, 64, 128);
    assert_eq!(
        k.dispatch(&gemm(GemmPath::BatchedF16, 128)),
        Ok(Dispatch::HalfGemm(cast, product, back))
    );
    assert_eq!(
        k.dispatch(&gemm(GemmPath::BatchedF16, i32::MAX)),
        Err(LaunchError::Dimensions)
    );
    assert_eq!(
        k.dispatch(&gemm(GemmPath::GemvQ4, 128)),
        Ok(Dispatch::Other)
    );
}

#[test]
fn dimensions_out_of_range_are_refused() {
    let k = kernels();
    let add = |n| Op::Add {
        x: Buf::X,
        y: Buf::Proj,
        n,
    };
    assert_eq!(k.dispatch(&add(-1)), Err(LaunchError::Dimensions));
    let store = Op::KvStore {
        half: false,
        kv: Buf::K,
        cache: Buf::KCache(0),
        rows: 1 << 16,
        kv_heads: 1 << 10,
        dim: 64,
        max_seq: 1,
    };
    assert_eq!(k.dispatch(&store), Err(LaunchError::Dimensions));
    assert_eq!(
        k.dispatch(&Op::MoePrefixSum { experts: 257 }),
        Err(LaunchError::Dimensions)
    );
    let prefill = Op::AttnPrefillF16 {
        k: Buf::KCache(0),
        v: Buf::VCache(0),
        run: Run {
            qoff: 0,
            count: 65,
            base: 0,
            slot: 0,
        },
        heads: 4,
        kv_heads: 2,
        dim: 32,
        max_seq: 256,
    };
    assert_eq!(
        k.dispatch(&prefill),
        Err(LaunchError::PrefillGeometry {
            rows: 65,
            head_dim: 32
        })
    );
}
