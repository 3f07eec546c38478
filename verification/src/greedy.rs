//! The greedy next token.

use vstd::prelude::*;

use crate::config::F32Bits;
use crate::fp16::mag32;

verus! {

/// No number.
pub open spec fn nan32(x: F32Bits) -> bool {
    mag32(x) > 0x7f80_0000
}

/// The place of a number in the order of numbers; both zeros stand at zero.
pub open spec fn rank32(x: F32Bits) -> int {
    if x >= 0x8000_0000 {
        -(mag32(x) as int)
    } else {
        mag32(x) as int
    }
}

/// `a` is greater than `b`. NaN is neither less nor greater than anything.
pub open spec fn greater32(a: F32Bits, b: F32Bits) -> bool {
    !nan32(a) && !nan32(b) && rank32(a) > rank32(b)
}

fn gt32(a: F32Bits, b: F32Bits) -> (r: bool)
    ensures
        r == greater32(a, b),
{
    let ma: u32 = a % 0x8000_0000;
    let mb: u32 = b % 0x8000_0000;
    if ma > 0x7f80_0000 || mb > 0x7f80_0000 {
        return false;
    }
    let na: bool = a >= 0x8000_0000;
    let nb: bool = b >= 0x8000_0000;
    if na && nb {
        ma < mb
    } else if na {
        false
    } else if nb {
        ma > 0 || mb > 0
    } else {
        ma > mb
    }
}

/// The index that a scan over the first `n` logits ends at: a logit gives way to a later one
/// unless it is greater.
pub open spec fn scan(logits: Seq<F32Bits>, n: nat) -> int
    decreases n,
{
    if n <= 1 {
        0
    } else {
        let best = scan(logits, (n - 1) as nat);
        if greater32(logits[best], logits[n - 1]) {
            best
        } else {
            n - 1
        }
    }
}

/// Index of the largest logit, the last of several; 0 without logits.
#[must_use]
pub fn argmax(logits: &[F32Bits]) -> (token: u32)
    requires
        logits@.len() <= u32::MAX,
    ensures
        token == scan(logits@, logits@.len()),
        logits@.len() > 0 ==> token < logits@.len(),
{
    if logits.len() == 0 {
        return 0;
    }
    let mut best: usize = 0;
    let mut i: usize = 1;
    while i < logits.len()
        invariant
            1 <= i <= logits@.len(),
            best < i,
            best == scan(logits@, i as nat),
        decreases logits@.len() - i,
    {
        if !gt32(logits[best], logits[i]) {
            best = i;
        }
        i = i + 1;
    }
    best as u32
}

/// Among numbers the scan finds the largest: none is greater, and those behind it are less.
pub proof fn lemma_scan_is_largest(logits: Seq<F32Bits>, n: nat)
    requires
        0 < n <= logits.len(),
        forall|i: int| 0 <= i < n ==> !nan32(#[trigger] logits[i]),
    ensures
        ({
            let best = scan(logits, n);
            &&& 0 <= best < n
            &&& forall|i: int| 0 <= i < n ==> rank32(#[trigger] logits[i]) <= rank32(logits[best])
            &&& forall|i: int|
                best < i < n ==> rank32(#[trigger] logits[i]) < rank32(logits[best])
        }),
    decreases n,
{
    if n > 1 {
        lemma_scan_is_largest(logits, (n - 1) as nat);
    }
}

} // verus!
