use mach_model::adaptive_policy::{AdaptiveProfile, BandwidthProfile, FetchChoice};
use mach_model::adaptive_q::{balance_offload, screen_offload, AdaptiveConfig, Split};
use mach_model::greedy::argmax;
use mach_model::routing::top_experts;

fn profile(pcie_bytes_per_sec: f64, cpu_expert_sec: f64) -> BandwidthProfile {
    BandwidthProfile {
        pcie_bytes_per_sec: pcie_bytes_per_sec.to_bits(),
        cpu_expert_sec: cpu_expert_sec.to_bits(),
    }
}

fn pick(p: &BandwidthProfile, expert_bytes: usize) -> FetchChoice {
    let fetch_sec = expert_bytes as f64 / f64::from_bits(p.divisor());
    p.decide(fetch_sec.to_bits())
}

fn observe(q: &mut AdaptiveProfile, sample: f64) {
    let w = f64::from_bits(q.weight(sample.to_bits()));
    let cur = f64::from_bits(q.profile().pcie_bytes_per_sec);
    q.observe((cur * (1.0 - w) + sample * w).to_bits());
}

fn adaptive(pcie: f64, cpu: f64, alpha: f64) -> AdaptiveProfile {
    AdaptiveProfile::new(pcie.to_bits(), cpu.to_bits(), alpha.to_bits())
}

fn pick_now(q: &AdaptiveProfile, expert_bytes: usize) -> FetchChoice {
    let fetch_sec = expert_bytes as f64 / f64::from_bits(q.profile().divisor());
    q.decide(fetch_sec.to_bits())
}

#[test]
fn high_bandwidth_prefers_gpu() {
    let prof = profile(10_000_000_000.0, 100e-6);
    assert_eq!(pick(&prof, 96 * 1024), FetchChoice::FetchGpu);
}

#[test]
fn contended_bus_prefers_cpu() {
    let prof = profile(100_000_000.0, 10e-6);
    assert_eq!(pick(&prof, 96 * 1024), FetchChoice::ComputeCpu);
}

#[test]
fn zero_bandwidth_is_safe() {
    let prof = profile(0.0, 1e-6);
    assert_eq!(f64::from_bits(prof.divisor()), 1.0);
    assert_eq!(pick(&prof, 96 * 1024), FetchChoice::ComputeCpu);
}

#[test]
fn equal_times_prefer_gpu() {
    let prof = profile(1024.0, 1.0);
    assert_eq!(pick(&prof, 1024), FetchChoice::FetchGpu);
}

#[test]
fn realtime_contention_flips_choice_to_cpu() {
    let mut q = adaptive(10_000_000_000.0, 10e-6, 0.9);
    assert_eq!(pick_now(&q, 96 * 1024), FetchChoice::FetchGpu);
    observe(&mut q, 100_000_000.0);
    assert_eq!(pick_now(&q, 96 * 1024), FetchChoice::ComputeCpu);
}

#[test]
fn realtime_recovery_is_slower() {
    let mut q = adaptive(100_000_000.0, 30e-6, 0.9);
    observe(&mut q, 10_000_000_000.0);
    assert_eq!(pick_now(&q, 96 * 1024), FetchChoice::ComputeCpu);
    observe(&mut q, 10_000_000_000.0);
    observe(&mut q, 10_000_000_000.0);
    assert_eq!(pick_now(&q, 96 * 1024), FetchChoice::FetchGpu);
}

#[test]
fn zero_bandwidth_observe_is_safe() {
    let mut q = adaptive(10e6, 1e-6, 0.5);
    observe(&mut q, 0.0);
    assert_eq!(f64::from_bits(q.profile().pcie_bytes_per_sec), 5e6);
    assert_eq!(pick_now(&q, 96 * 1024), FetchChoice::ComputeCpu);
}

/// 32 GB/s bus (256 Gbit/s), GPU 100x the CPU, 1 GB experts, 8 routed experts per token, 1 GFLOP
/// per expert and token.
#[derive(Debug, Clone, Copy)]
struct Measured {
    pcie_bw_gbps: f64,
    cpu_flops: f64,
    gpu_flops: f64,
    expert_bytes: f64,
    experts_per_token: f64,
    flops_per_expert_token: f64,
}

fn base() -> Measured {
    Measured {
        pcie_bw_gbps: 256.0,
        cpu_flops: 1e12,
        gpu_flops: 1e14,
        expert_bytes: 1e9,
        experts_per_token: 8.0,
        flops_per_expert_token: 1e9,
    }
}

fn optimal_offload_ratio(m: Measured) -> f64 {
    let cfg = AdaptiveConfig {
        pcie_bw_gbps: m.pcie_bw_gbps.to_bits(),
        cpu_flops: m.cpu_flops.to_bits(),
        gpu_flops: m.gpu_flops.to_bits(),
        expert_bytes: m.expert_bytes.to_bits(),
        experts_per_token: m.experts_per_token.to_bits(),
        flops_per_expert_token: m.flops_per_expert_token.to_bits(),
    };
    let share = |s: Split| match s {
        Split::Neutral => 0.5,
        Split::AllCpu => 0.0,
        Split::AllGpu => 1.0,
        Split::Balance => f64::NAN,
    };
    let rates = match screen_offload(&cfg, (m.pcie_bw_gbps * 1e9 / 8.0).to_bits()) {
        Ok(rates) => rates,
        Err(split) => return share(split),
    };
    let gpu_expert_sec = f64::from_bits(rates.flops) / f64::from_bits(rates.gpu_flops);
    let cpu_expert_sec = f64::from_bits(rates.flops) / f64::from_bits(rates.cpu_flops);
    let transfer_sec = f64::from_bits(rates.expert_bytes) / f64::from_bits(rates.bandwidth);
    match balance_offload(
        gpu_expert_sec.to_bits(),
        cpu_expert_sec.to_bits(),
        transfer_sec.to_bits(),
    ) {
        Split::Balance => (cpu_expert_sec / (cpu_expert_sec + transfer_sec)).clamp(0.0, 1.0),
        split => share(split),
    }
}

#[test]
fn infinite_bandwidth_goes_all_gpu() {
    let mut cfg = base();
    cfg.pcie_bw_gbps = f64::INFINITY;
    assert_eq!(optimal_offload_ratio(cfg), 1.0);
}

#[test]
fn infinite_flops_returns_neutral_default() {
    let mut cfg = base();
    cfg.flops_per_expert_token = f64::INFINITY;
    let q = optimal_offload_ratio(cfg);
    assert!(q.is_finite(), "q must stay finite, got {q}");
    assert_eq!(q, 0.5, "non-finite input -> neutral default");
}

#[test]
fn zero_bandwidth_goes_all_cpu() {
    let mut cfg = base();
    cfg.pcie_bw_gbps = 0.0;
    assert_eq!(optimal_offload_ratio(cfg), 0.0);
}

#[test]
fn bandwidth_increase_never_lowers_qstar() {
    let mut low = base();
    low.pcie_bw_gbps = 8.0; // 1 GB/s
    let mut mid = base();
    mid.pcie_bw_gbps = 64.0; // 8 GB/s
    let mut high = base();
    high.pcie_bw_gbps = 256.0; // 32 GB/s

    let q_low = optimal_offload_ratio(low);
    let q_mid = optimal_offload_ratio(mid);
    let q_high = optimal_offload_ratio(high);

    assert!(
        q_low <= q_mid && q_mid <= q_high,
        "q* must be non-decreasing in bandwidth: {q_low} <= {q_mid} <= {q_high}"
    );
}

#[test]
fn faster_cpu_never_raises_qstar() {
    let mut slow_cpu = base();
    slow_cpu.cpu_flops = 1e11;
    let mut mid_cpu = base();
    mid_cpu.cpu_flops = 1e12;
    let mut fast_cpu = base();
    fast_cpu.cpu_flops = 1e13;

    let q_slow = optimal_offload_ratio(slow_cpu);
    let q_mid = optimal_offload_ratio(mid_cpu);
    let q_fast = optimal_offload_ratio(fast_cpu);

    assert!(
        q_slow >= q_mid && q_mid >= q_fast,
        "q* must be non-increasing as the CPU gets faster: {q_slow} >= {q_mid} >= {q_fast}"
    );
}

#[test]
fn gpu_slower_than_cpu_falls_back_to_cpu() {
    let mut cfg = base();
    cfg.gpu_flops = 5e11; // GPU per-expert compute now slower than the CPU
    assert_eq!(optimal_offload_ratio(cfg), 0.0);
}

#[test]
fn finite_reasonable_inputs_stay_in_unit_range() {
    let cfg = base();
    let q = optimal_offload_ratio(cfg);
    // Strictly interior: a finite bus yields a real split, not an extreme.
    assert!(
        (0.0..1.0).contains(&q),
        "expected an interior split, got {q}"
    );

    // Lock the closed form: q* = (F/C) / (F/C + W/BW).
    let f = cfg.flops_per_expert_token;
    let cpu_expert_sec = f / cfg.cpu_flops;
    let transfer_expert_sec = cfg.expert_bytes / (cfg.pcie_bw_gbps * 1e9 / 8.0);
    let expected = cpu_expert_sec / (cpu_expert_sec + transfer_expert_sec);
    assert!((q - expected).abs() < 1e-12);

    // A spread of finite configurations all stay in [0, 1].
    let variants = [
        Measured {
            pcie_bw_gbps: 4.0,
            ..base()
        },
        Measured {
            cpu_flops: 1e9,
            ..base()
        },
        Measured {
            gpu_flops: 1e11,
            ..base()
        },
        Measured {
            expert_bytes: 1e6,
            ..base()
        },
        Measured {
            experts_per_token: 64.0,
            ..base()
        },
        Measured {
            flops_per_expert_token: 1e11,
            ..base()
        },
    ];
    for v in variants {
        let qv = optimal_offload_ratio(v);
        assert!((0.0..=1.0).contains(&qv), "q* out of range for {v:?}: {qv}");
    }
}

#[test]
fn nan_inputs_return_neutral_default() {
    for i in 0..6 {
        let mut cfg = base();
        match i {
            0 => cfg.pcie_bw_gbps = f64::NAN,
            1 => cfg.cpu_flops = f64::NAN,
            2 => cfg.gpu_flops = f64::NAN,
            3 => cfg.expert_bytes = f64::NAN,
            4 => cfg.experts_per_token = f64::NAN,
            _ => cfg.flops_per_expert_token = f64::NAN,
        }
        assert_eq!(
            optimal_offload_ratio(cfg),
            0.5,
            "field {i} NaN must be defended"
        );
    }
}

#[test]
fn zero_capacity_inputs_return_defensive_extremes() {
    // No CPU capacity -> everything on the GPU.
    let mut cfg = base();
    cfg.cpu_flops = 0.0;
    assert_eq!(optimal_offload_ratio(cfg), 1.0);

    // No GPU capacity -> everything on the CPU.
    let mut cfg = base();
    cfg.gpu_flops = 0.0;
    assert_eq!(optimal_offload_ratio(cfg), 0.0);

    // No transfer cost -> everything on the GPU.
    let mut cfg = base();
    cfg.expert_bytes = 0.0;
    assert_eq!(optimal_offload_ratio(cfg), 1.0);

    // No expert work per token -> neutral default.
    let mut cfg = base();
    cfg.experts_per_token = 0.0;
    assert_eq!(optimal_offload_ratio(cfg), 0.5);

    // No compute work -> deterministic in-range result (no transfer is paid).
    let mut cfg = base();
    cfg.flops_per_expert_token = 0.0;
    assert_eq!(optimal_offload_ratio(cfg), 0.0);

    // Negative bandwidth is clamped to the zero-bandwidth behaviour.
    let mut cfg = base();
    cfg.pcie_bw_gbps = -1.0;
    assert_eq!(optimal_offload_ratio(cfg), 0.0);
}

fn top(probs: &[f64], k: usize) -> Vec<usize> {
    let bits: Vec<u64> = probs.iter().map(|p| p.to_bits()).collect();
    top_experts(&bits, k)
}

#[test]
fn experts_rank_by_probability() {
    assert_eq!(top(&[0.1, 0.5, 0.2, 0.2], 3), vec![1, 2, 3]);
    assert_eq!(top(&[0.1, 0.5], 4), vec![1, 0]);
    assert_eq!(top(&[0.0, -0.0], 1), vec![0]);
    assert_eq!(top(&[], 2), Vec::<usize>::new());
    assert_eq!(top(&[f64::NAN, f64::NAN, f64::NAN], 2), vec![0, 1]);
}

fn greedy(logits: &[f32]) -> u32 {
    let bits: Vec<u32> = logits.iter().map(|x| x.to_bits()).collect();
    argmax(&bits)
}

#[test]
fn greedy_token_is_the_last_largest() {
    assert_eq!(greedy(&[]), 0);
    assert_eq!(greedy(&[1.0, 3.0, 2.0]), 1);
    assert_eq!(greedy(&[3.0, 3.0, -4.0]), 1);
    assert_eq!(greedy(&[-1.0, -0.5, f32::NEG_INFINITY]), 1);
    assert_eq!(greedy(&[0.0, -0.0]), 1);
    // A logit that is no number takes the place of any.
    assert_eq!(greedy(&[5.0, f32::NAN, 1.0]), 2);
    assert_eq!(greedy(&[5.0, f32::NAN]), 1);
}

#[test]
fn the_share_is_a_fraction_whatever_was_measured() {
    // Free transfer of work that takes the CPU no time.
    let mut cfg = base();
    cfg.pcie_bw_gbps = f64::INFINITY;
    cfg.flops_per_expert_token = 0.0;
    assert_eq!(optimal_offload_ratio(cfg), 1.0);

    // Endless weights over an endless bus say nothing.
    let mut cfg = base();
    cfg.pcie_bw_gbps = f64::INFINITY;
    cfg.expert_bytes = f64::INFINITY;
    assert_eq!(optimal_offload_ratio(cfg), 0.5);

    // Endless weights never arrive.
    let mut cfg = base();
    cfg.expert_bytes = f64::INFINITY;
    assert_eq!(optimal_offload_ratio(cfg), 0.0);

    let edges = [
        f64::NEG_INFINITY,
        -1.0,
        0.0,
        f64::MIN_POSITIVE,
        1.0,
        f64::MAX,
        f64::INFINITY,
        f64::NAN,
    ];
    for i in 0..edges.len().pow(5) {
        let pick = |k: u32| edges[i / edges.len().pow(k) % edges.len()];
        let cfg = Measured {
            pcie_bw_gbps: pick(0),
            cpu_flops: pick(1),
            gpu_flops: pick(2),
            expert_bytes: pick(3),
            experts_per_token: 8.0,
            flops_per_expert_token: pick(4),
        };
        let q = optimal_offload_ratio(cfg);
        assert!((0.0..=1.0).contains(&q), "{cfg:?} gives {q}");
    }
}
