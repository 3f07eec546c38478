//! Split of expert work between GPU and CPU for experts that live in host memory.
//!
//! Per token a share `q` of the expert work runs on the GPU, which fetches the weights over the
//! bus, and the rest on the CPU. Where the GPU is at least as fast per expert as the CPU, bus
//! and CPU balance at `q = c / (c + t)` for CPU time `c` and transfer time `t` per expert. The
//! quotients are computed outside; which of them counts, and what the extremes give, is decided
//! here.

use vstd::prelude::*;

use crate::double_bits::finite64;
use crate::double_bits::is_finite64;
use crate::double_bits::is_nan64;
use crate::double_bits::is_zero64;
use crate::double_bits::larger64;
use crate::double_bits::less64;
use crate::double_bits::lt64;
use crate::double_bits::mag64;
use crate::double_bits::max64;
use crate::double_bits::nan64;
use crate::double_bits::rank64;
use crate::double_bits::value64;
use crate::double_bits::F64Bits;
use crate::float_bits::lemma_magnitude_increases;

verus! {

/// Host-side measurements driving the split.
#[derive(Debug, Clone, Copy, PartialEq, Eq, Structural)]
pub struct AdaptiveConfig {
    /// Effective host-to-device bandwidth in Gbit/s.
    pub pcie_bw_gbps: F64Bits,
    /// Sustained CPU FLOPs/s available for expert math.
    pub cpu_flops: F64Bits,
    /// Sustained GPU FLOPs/s available for expert math.
    pub gpu_flops: F64Bits,
    /// Bytes of weights per expert that cross the bus when computed on the GPU.
    pub expert_bytes: F64Bits,
    /// Routed experts computed per token.
    pub experts_per_token: F64Bits,
    /// FLOPs to compute one expert for one token.
    pub flops_per_expert_token: F64Bits,
}

/// A share of the work that needs no computation.
#[derive(Debug, Clone, Copy, PartialEq, Eq, Structural)]
pub enum Split {
    /// One half: the model says nothing.
    Neutral,
    AllCpu,
    AllGpu,
    /// The share that balances bus and CPU.
    Balance,
}

/// What the per-expert times are computed from, no value below zero.
#[derive(Debug, Clone, Copy, PartialEq, Eq, Structural)]
pub struct Rates {
    /// Bytes per second over the bus.
    pub bandwidth: F64Bits,
    pub cpu_flops: F64Bits,
    pub gpu_flops: F64Bits,
    pub expert_bytes: F64Bits,
    pub flops: F64Bits,
}

impl AdaptiveConfig {
    /// Some value was not measured.
    pub open spec fn unmeasured(self) -> bool {
        ||| nan64(self.pcie_bw_gbps)
        ||| nan64(self.cpu_flops)
        ||| nan64(self.gpu_flops)
        ||| nan64(self.expert_bytes)
        ||| nan64(self.experts_per_token)
        ||| nan64(self.flops_per_expert_token)
    }

    pub open spec fn rates(self, bandwidth: F64Bits) -> Rates {
        Rates {
            bandwidth: max64(bandwidth, 0),
            cpu_flops: max64(self.cpu_flops, 0),
            gpu_flops: max64(self.gpu_flops, 0),
            expert_bytes: max64(self.expert_bytes, 0),
            flops: max64(self.flops_per_expert_token, 0),
        }
    }

    /// The extreme that the measurements alone decide, if they do.
    pub open spec fn extreme(self, bandwidth: F64Bits) -> Option<Split> {
        let r = self.rates(bandwidth);
        if self.unmeasured() {
            Some(Split::Neutral)
        } else if rank64(max64(self.experts_per_token, 0)) == 0 {
            Some(Split::Neutral)
        } else if rank64(max64(self.pcie_bw_gbps, 0)) == 0 || rank64(r.bandwidth) == 0 || rank64(
            r.gpu_flops,
        ) == 0 {
            Some(Split::AllCpu)
        } else if rank64(r.cpu_flops) == 0 || rank64(r.expert_bytes) == 0 {
            Some(Split::AllGpu)
        } else {
            None
        }
    }
}

/// Screens the measurements. `bandwidth` is the bus bandwidth in bytes per second. Unmeasured
/// values and a token without experts split evenly, a dead bus or GPU leaves all to the CPU, no
/// CPU or no transfer leaves all to the GPU. Otherwise the result is what the per-expert times
/// are computed from; negative values count as zero.
pub fn screen_offload(cfg: &AdaptiveConfig, bandwidth: F64Bits) -> (r: Result<Rates, Split>)
    ensures
        match r {
            Ok(rates) => cfg.extreme(bandwidth) is None && rates == cfg.rates(bandwidth),
            Err(split) => cfg.extreme(bandwidth) == Some(split),
        },
{
    if is_nan64(cfg.pcie_bw_gbps) || is_nan64(cfg.cpu_flops) || is_nan64(cfg.gpu_flops)
        || is_nan64(cfg.expert_bytes) || is_nan64(cfg.experts_per_token) || is_nan64(
        cfg.flops_per_expert_token,
    ) {
        return Err(Split::Neutral);
    }
    let rates = Rates {
        bandwidth: larger64(bandwidth, 0),
        cpu_flops: larger64(cfg.cpu_flops, 0),
        gpu_flops: larger64(cfg.gpu_flops, 0),
        expert_bytes: larger64(cfg.expert_bytes, 0),
        flops: larger64(cfg.flops_per_expert_token, 0),
    };
    let experts: u64 = larger64(cfg.experts_per_token, 0);
    if is_zero64(experts) {
        return Err(Split::Neutral);
    }
    let bus: u64 = larger64(cfg.pcie_bw_gbps, 0);
    if is_zero64(bus) || is_zero64(rates.bandwidth) || is_zero64(rates.gpu_flops) {
        return Err(Split::AllCpu);
    }
    if is_zero64(rates.cpu_flops) || is_zero64(rates.expert_bytes) {
        return Err(Split::AllGpu);
    }
    Ok(rates)
}

/// The split that the per-expert times of GPU, CPU and bus give.
pub open spec fn timed_split(gpu: F64Bits, cpu: F64Bits, transfer: F64Bits) -> Split {
    if less64(cpu, gpu) {
        Split::AllCpu
    } else if !finite64(gpu) || !finite64(cpu) || nan64(transfer) {
        Split::Neutral
    } else if rank64(transfer) <= 0 {
        Split::AllGpu
    } else if !finite64(transfer) || rank64(cpu) <= 0 {
        Split::AllCpu
    } else {
        Split::Balance
    }
}

/// Decides from the per-expert times. A GPU slower than the CPU is not worth the fetch. Compute
/// times that are not finite, or a transfer time that is no number, say nothing. A free transfer
/// leaves all to the GPU; an endless one, or a CPU that takes no time, leaves all to the CPU.
/// Otherwise bus and CPU are balanced.
#[must_use]
pub fn balance_offload(
    gpu_expert_sec: F64Bits,
    cpu_expert_sec: F64Bits,
    transfer_expert_sec: F64Bits,
) -> (s: Split)
    ensures
        s == timed_split(gpu_expert_sec, cpu_expert_sec, transfer_expert_sec),
{
    if lt64(cpu_expert_sec, gpu_expert_sec) {
        return Split::AllCpu;
    }
    if !is_finite64(gpu_expert_sec) || !is_finite64(cpu_expert_sec) || is_nan64(
        transfer_expert_sec,
    ) {
        return Split::Neutral;
    }
    if !lt64(0, transfer_expert_sec) {
        return Split::AllGpu;
    }
    if !is_finite64(transfer_expert_sec) || !lt64(0, cpu_expert_sec) {
        return Split::AllCpu;
    }
    Split::Balance
}

/// The split is always a fraction: where no fixed share is given, the CPU time `c` and the
/// transfer time `t` are finite and positive, so `c / (c + t)` lies strictly between 0 and 1.
pub proof fn lemma_balance_is_fraction(gpu: F64Bits, cpu: F64Bits, transfer: F64Bits)
    requires
        timed_split(gpu, cpu, transfer) is Balance,
    ensures
        finite64(cpu) && rank64(cpu) > 0,
        finite64(transfer) && rank64(transfer) > 0,
        0 < value64(cpu) < value64(cpu) + value64(transfer),
{
    lemma_value_positive(cpu);
    lemma_value_positive(transfer);
}

proof fn lemma_value_positive(d: F64Bits)
    requires
        rank64(d) > 0,
    ensures
        value64(d) > 0,
{
    lemma_magnitude_increases(0x10_0000_0000_0000, 0, mag64(d));
}

/// What the measurements decide whatever the bandwidth in bytes comes to: an unmeasured value
/// splits evenly; then no experts split evenly; then a bus or GPU without capacity leaves all to
/// the CPU. A bus with capacity in bytes too leaves all to the GPU if the CPU has no capacity or
/// the experts no weights.
pub proof fn lemma_extremes(cfg: AdaptiveConfig, bandwidth: F64Bits)
    ensures
        cfg.unmeasured() ==> cfg.extreme(bandwidth) == Some(Split::Neutral),
        !cfg.unmeasured() ==> {
            let work = rank64(cfg.experts_per_token) > 0;
            let gpu = rank64(cfg.pcie_bw_gbps) > 0 && rank64(cfg.gpu_flops) > 0;
            let cpu = rank64(cfg.cpu_flops) > 0 && rank64(cfg.expert_bytes) > 0;
            &&& !work ==> cfg.extreme(bandwidth) == Some(Split::Neutral)
            &&& work && !gpu ==> cfg.extreme(bandwidth) == Some(Split::AllCpu)
            &&& work && gpu && !cpu && !nan64(bandwidth) && rank64(bandwidth) > 0
                ==> cfg.extreme(bandwidth) == Some(Split::AllGpu)
            &&& work && gpu && cpu && !nan64(bandwidth) && rank64(bandwidth) > 0
                ==> cfg.extreme(bandwidth) is None
        },
{
}

/// The times are computed from positive rates: nothing is divided by zero.
pub proof fn lemma_rates_positive(cfg: AdaptiveConfig, bandwidth: F64Bits)
    requires
        cfg.extreme(bandwidth) is None,
    ensures
        rank64(cfg.rates(bandwidth).bandwidth) > 0,
        rank64(cfg.rates(bandwidth).cpu_flops) > 0,
        rank64(cfg.rates(bandwidth).gpu_flops) > 0,
        rank64(cfg.rates(bandwidth).expert_bytes) > 0,
        rank64(cfg.rates(bandwidth).flops) >= 0,
{
}

} // verus!
