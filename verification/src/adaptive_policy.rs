//! Bandwidth-adaptive placement policy: is fetching an expert over the bus cheaper than
//! computing it on the CPU, under the current (possibly contended) bandwidth estimate.
//!
//! Times and rates are double-precision bit patterns. Products and quotients of them are
//! computed outside; the comparisons and the choices they lead to are here.

use vstd::prelude::*;

use crate::double_bits::larger64;
use crate::double_bits::less64;
use crate::double_bits::lt64;
use crate::double_bits::max64;
use crate::double_bits::F64Bits;

verus! {

/// One.
pub const F64_ONE: u64 = 0x3ff0_0000_0000_0000;

/// One quarter: the weight of a sample that shows a recovered bus.
pub const F64_QUARTER: u64 = 0x3fd0_0000_0000_0000;

/// Measured bus bandwidth and per-expert CPU compute cost.
#[derive(Debug, Clone, Copy, PartialEq, Eq, Structural)]
pub struct BandwidthProfile {
    /// Effective bus bandwidth (bytes/second).
    pub pcie_bytes_per_sec: F64Bits,
    /// Time to compute one expert for one token on the CPU (seconds).
    pub cpu_expert_sec: F64Bits,
}

/// Decision for one routed expert miss.
#[derive(Debug, Clone, Copy, PartialEq, Eq, Structural)]
pub enum FetchChoice {
    /// Fetch the expert weight to the GPU and compute there.
    FetchGpu,
    /// Compute the expert on the CPU instead of fetching.
    ComputeCpu,
}

impl BandwidthProfile {
    /// The bandwidth that fetch times are computed with: at least one byte per second.
    #[must_use]
    pub fn divisor(&self) -> (d: F64Bits)
        ensures
            d == max64(self.pcie_bytes_per_sec, F64_ONE),
    {
        larger64(self.pcie_bytes_per_sec, F64_ONE)
    }

    /// For one miss whose fetch takes `fetch_sec`, prefers the CPU when its compute time is
    /// strictly cheaper.
    #[must_use]
    pub fn decide(&self, fetch_sec: F64Bits) -> (c: FetchChoice)
        ensures
            c == if less64(self.cpu_expert_sec, fetch_sec) {
                FetchChoice::ComputeCpu
            } else {
                FetchChoice::FetchGpu
            },
    {
        if lt64(self.cpu_expert_sec, fetch_sec) {
            FetchChoice::ComputeCpu
        } else {
            FetchChoice::FetchGpu
        }
    }
}

/// Realtime profile: folds measured bandwidth samples into a smoothed estimate, so that a
/// contended bus shifts work to the CPU promptly and recovery is gradual.
#[derive(Debug, Clone, Copy, PartialEq, Eq, Structural)]
pub struct AdaptiveProfile {
    pub current: BandwidthProfile,
    /// Weight of a sample below the estimate.
    pub alpha: F64Bits,
}

impl AdaptiveProfile {
    #[must_use]
    pub fn new(pcie_bytes_per_sec: F64Bits, cpu_expert_sec: F64Bits, alpha: F64Bits) -> (p: Self)
        ensures
            p == (AdaptiveProfile {
                current: BandwidthProfile { pcie_bytes_per_sec, cpu_expert_sec },
                alpha,
            }),
    {
        AdaptiveProfile {
            current: BandwidthProfile { pcie_bytes_per_sec, cpu_expert_sec },
            alpha,
        }
    }

    /// The weight of a sample: degradation reacts at `alpha`, recovery at one quarter.
    #[must_use]
    pub fn weight(&self, sample_bytes_per_sec: F64Bits) -> (w: F64Bits)
        ensures
            w == if less64(sample_bytes_per_sec, self.current.pcie_bytes_per_sec) {
                self.alpha
            } else {
                F64_QUARTER
            },
    {
        if lt64(sample_bytes_per_sec, self.current.pcie_bytes_per_sec) {
            self.alpha
        } else {
            F64_QUARTER
        }
    }

    /// Takes over the estimate that the weighted mean of the old one and a sample gave.
    pub fn observe(&mut self, folded_bytes_per_sec: F64Bits)
        ensures
            *final(self) == (AdaptiveProfile {
                current: BandwidthProfile {
                    pcie_bytes_per_sec: folded_bytes_per_sec,
                    ..old(self).current
                },
                ..*old(self)
            }),
    {
        self.current.pcie_bytes_per_sec = folded_bytes_per_sec;
    }

    #[must_use]
    pub fn profile(&self) -> (p: BandwidthProfile)
        ensures
            p == self.current,
    {
        self.current
    }

    /// Per-miss decision under the current estimate.
    #[must_use]
    pub fn decide(&self, fetch_sec: F64Bits) -> (c: FetchChoice)
        ensures
            c == if less64(self.current.cpu_expert_sec, fetch_sec) {
                FetchChoice::ComputeCpu
            } else {
                FetchChoice::FetchGpu
            },
    {
        self.current.decide(fetch_sec)
    }
}

/// A slower fetch never moves work back to the GPU.
pub proof fn lemma_choice_monotone(cpu: F64Bits, fast: F64Bits, slow: F64Bits)
    requires
        less64(cpu, fast),
        less64(fast, slow) || fast == slow,
    ensures
        less64(cpu, slow),
{
}

} // verus!
