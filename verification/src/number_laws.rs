//! Comparisons of bit patterns are comparisons of the numbers that they stand for, and what the
//! offload split makes of measured numbers.

use vstd::prelude::*;

use crate::adaptive_q::timed_split;
use crate::adaptive_q::AdaptiveConfig;
use crate::adaptive_q::Split;
use crate::config::F32Bits;
use crate::double_bits::finite64;
use crate::double_bits::less64;
use crate::double_bits::mag64;
use crate::double_bits::max64;
use crate::double_bits::nan64;
use crate::double_bits::value64;
use crate::double_bits::F64Bits;
use crate::float_bits::lemma_magnitude_increases;
use crate::fp16::finite32;
use crate::fp16::mag32;
use crate::fp16::value32;
use crate::greedy::greater32;
use crate::greedy::nan32;

verus! {

/// The number of a single-precision pattern, in units of `2^-149`.
pub open spec fn number32(x: F32Bits) -> int {
    if x < 0x8000_0000 {
        value32(x) as int
    } else {
        -(value32(x) as int)
    }
}

/// The number of a double-precision pattern, in units of `2^-1074`.
pub open spec fn number64(d: F64Bits) -> int {
    if d < 0x8000_0000_0000_0000 {
        value64(d) as int
    } else {
        -(value64(d) as int)
    }
}

/// Greater means greater: of two finite numbers that with the larger value.
pub proof fn lemma_order32(a: F32Bits, b: F32Bits)
    requires
        finite32(a),
        finite32(b),
    ensures
        greater32(a, b) <==> number32(a) > number32(b),
{
    let (m, n) = (mag32(a), mag32(b));
    let f = 0x80_0000nat;
    if m < n {
        lemma_magnitude_increases(f, m, n);
    } else if n < m {
        lemma_magnitude_increases(f, n, m);
    }
    if m > 0 {
        lemma_magnitude_increases(f, 0, m);
    }
    if n > 0 {
        lemma_magnitude_increases(f, 0, n);
    }
}

/// An infinity is beyond every finite number, and what is no number compares with nothing.
pub proof fn lemma_order32_ends(x: F32Bits, y: F32Bits)
    requires
        finite32(x),
    ensures
        greater32(0x7f80_0000, x),
        greater32(x, 0xff80_0000),
        nan32(y) ==> !greater32(x, y) && !greater32(y, x),
{
}

/// Less means less: of two finite numbers that with the smaller value.
pub proof fn lemma_order64(a: F64Bits, b: F64Bits)
    requires
        finite64(a),
        finite64(b),
    ensures
        less64(a, b) <==> number64(a) < number64(b),
        number64(max64(a, b)) == vstd::math::max(number64(a), number64(b)),
{
    let (m, n) = (mag64(a), mag64(b));
    let f = 0x10_0000_0000_0000nat;
    if m < n {
        lemma_magnitude_increases(f, m, n);
    } else if n < m {
        lemma_magnitude_increases(f, n, m);
    }
    if m > 0 {
        lemma_magnitude_increases(f, 0, m);
    }
    if n > 0 {
        lemma_magnitude_increases(f, 0, n);
    }
}

/// The larger of a number and what is no number is the number.
pub proof fn lemma_max64_nan(a: F64Bits, b: F64Bits)
    requires
        nan64(a) != nan64(b),
    ensures
        !nan64(max64(a, b)),
        max64(a, b) == if nan64(a) {
            b
        } else {
            a
        },
{
}

/// One measurement that is no number makes the split even, whichever it is.
pub proof fn lemma_unmeasured(cfg: AdaptiveConfig, bandwidth: F64Bits)
    requires
        nan64(cfg.pcie_bw_gbps) || nan64(cfg.cpu_flops) || nan64(cfg.gpu_flops) || nan64(
            cfg.expert_bytes,
        ) || nan64(cfg.experts_per_token) || nan64(cfg.flops_per_expert_token),
    ensures
        cfg.extreme(bandwidth) == Some(Split::Neutral),
{
}

/// Where the times are to be computed, each is computed from its own measurement.
pub proof fn lemma_rates(cfg: AdaptiveConfig, bandwidth: F64Bits)
    requires
        cfg.extreme(bandwidth) is None,
    ensures
        ({
            let r = cfg.rates(bandwidth);
            &&& r.bandwidth == bandwidth
            &&& r.cpu_flops == cfg.cpu_flops
            &&& r.gpu_flops == cfg.gpu_flops
            &&& r.expert_bytes == cfg.expert_bytes
            &&& finite64(cfg.flops_per_expert_token) ==> number64(r.flops) == vstd::math::max(
                number64(cfg.flops_per_expert_token),
                0,
            )
        }),
{
    if finite64(cfg.flops_per_expert_token) {
        lemma_order64(cfg.flops_per_expert_token, 0);
        assert(number64(0) == 0);
    }
}

/// With finite times the split is decided by their values alone: all to the CPU where it is
/// faster than the GPU or takes no time while the transfer does, all to the GPU where the
/// transfer takes none, and balanced otherwise.
pub proof fn lemma_timed_split(gpu: F64Bits, cpu: F64Bits, transfer: F64Bits)
    requires
        finite64(gpu),
        finite64(cpu),
        finite64(transfer),
    ensures
        ({
            let (g, c, t) = (number64(gpu), number64(cpu), number64(transfer));
            &&& timed_split(gpu, cpu, transfer) == Split::AllCpu <==> c < g || (t > 0 && c <= 0)
            &&& timed_split(gpu, cpu, transfer) == Split::AllGpu <==> c >= g && t <= 0
            &&& timed_split(gpu, cpu, transfer) == Split::Balance <==> c >= g && t > 0 && c > 0
            &&& timed_split(gpu, cpu, transfer) != Split::Neutral
        }),
{
    lemma_order64(cpu, gpu);
    lemma_order64(0, transfer);
    lemma_order64(0, cpu);
    assert(number64(0) == 0);
}

/// What is no number says nothing: without a compute time, or without a transfer time where the
/// CPU is not known to be faster, the split is even.
pub proof fn lemma_timed_split_unknown(gpu: F64Bits, cpu: F64Bits, transfer: F64Bits)
    ensures
        nan64(gpu) || nan64(cpu) ==> timed_split(gpu, cpu, transfer) == Split::Neutral,
        nan64(transfer) && !less64(cpu, gpu) ==> timed_split(gpu, cpu, transfer)
            == Split::Neutral,
        finite64(gpu) && finite64(cpu) && transfer == 0x7ff0_0000_0000_0000u64 ==> timed_split(
            gpu,
            cpu,
            transfer,
        ) == Split::AllCpu,
{
}

} // verus!
