//! Expert routing: the experts with the largest probabilities.

use vstd::prelude::*;

use crate::double_bits::lt64;
use crate::double_bits::nan64;
use crate::double_bits::rank64;
use crate::double_bits::F64Bits;

verus! {

/// The place of a probability in their order. Probabilities that are no numbers are all alike.
pub open spec fn prob_rank(p: F64Bits) -> int {
    if nan64(p) {
        0
    } else {
        rank64(p)
    }
}

/// All probabilities are numbers, or none is: one that is none spoils the sum that normalizes
/// them all.
pub open spec fn comparable(probs: Seq<F64Bits>) -> bool {
    ||| forall|i: int| 0 <= i < probs.len() ==> !nan64(#[trigger] probs[i])
    ||| forall|i: int| 0 <= i < probs.len() ==> nan64(#[trigger] probs[i])
}

/// Expert `a` comes before expert `b`: it is more likely, or as likely and has the lower index.
pub open spec fn ranks_before(probs: Seq<F64Bits>, a: usize, b: usize) -> bool {
    let pa = prob_rank(probs[a as int]);
    let pb = prob_rank(probs[b as int]);
    pa > pb || (pa == pb && a < b)
}

/// `ids` are distinct experts in order of rank.
pub open spec fn in_rank_order(probs: Seq<F64Bits>, ids: Seq<usize>) -> bool {
    &&& forall|i: int| 0 <= i < ids.len() ==> (#[trigger] ids[i]) < probs.len()
    &&& forall|i: int, j: int|
        0 <= i < j < ids.len() ==> ranks_before(probs, #[trigger] ids[i], #[trigger] ids[j])
}

/// Every expert outside `ids` ranks behind those in `ids`.
pub open spec fn outranks_rest(probs: Seq<F64Bits>, ids: Seq<usize>) -> bool {
    forall|i: int, e: usize|
        0 <= i < ids.len() && e < probs.len() && !ids.contains(e) ==> #[trigger] ranks_before(
            probs,
            ids[i],
            e,
        )
}

/// `b` ranks before every other expert below `n` outside `ids`.
pub open spec fn leads_below(probs: Seq<F64Bits>, ids: Seq<usize>, b: usize, n: int) -> bool {
    forall|e: usize|
        e < n && !ids.contains(e) && e != b ==> #[trigger] ranks_before(probs, b, e)
}

fn is_before(probs: &[F64Bits], a: usize, b: usize) -> (r: bool)
    requires
        a < probs@.len(),
        b < probs@.len(),
        comparable(probs@),
    ensures
        r == ranks_before(probs@, a, b),
{
    if lt64(probs[b], probs[a]) {
        true
    } else if lt64(probs[a], probs[b]) {
        false
    } else {
        a < b
    }
}

fn contains(ids: &Vec<usize>, e: usize) -> (b: bool)
    ensures
        b == ids@.contains(e),
{
    let mut i: usize = 0;
    while i < ids.len()
        invariant
            i <= ids.len(),
            forall|k: int| 0 <= k < i ==> #[trigger] ids[k] != e,
        decreases ids.len() - i,
    {
        if ids[i] == e {
            return true;
        }
        i = i + 1;
    }
    false
}

/// The first-ranked expert outside `ids`, if there is one.
fn best_outside(probs: &[F64Bits], ids: &Vec<usize>) -> (r: Option<usize>)
    requires
        comparable(probs@),
    ensures
        match r {
            Some(b) => b < probs@.len() && !ids@.contains(b) && leads_below(
                probs@,
                ids@,
                b,
                probs@.len() as int,
            ),
            None => forall|e: usize| e < probs@.len() ==> #[trigger] ids@.contains(e),
        },
{
    let mut best: Option<usize> = None;
    let mut e: usize = 0;
    while e < probs.len()
        invariant
            e <= probs@.len(),
            comparable(probs@),
            match best {
                Some(b) => b < e && !ids@.contains(b) && leads_below(probs@, ids@, b, e as int),
                None => forall|k: usize| k < e ==> #[trigger] ids@.contains(k),
            },
        decreases probs@.len() - e,
    {
        if !contains(ids, e) {
            match best {
                Some(b) => {
                    if is_before(probs, e, b) {
                        proof {
                            assert forall|k: usize|
                                k < e + 1 && !ids@.contains(k) && k != e implies #[trigger] ranks_before(
                                probs@,
                                e,
                                k,
                            ) by {
                                if k != b {
                                    assert(ranks_before(probs@, b, k));
                                }
                            }
                        }
                        best = Some(e);
                    }
                },
                None => {
                    best = Some(e);
                },
            }
        }
        e = e + 1;
    }
    best
}

/// The `topk` experts with the largest probabilities, most likely first, ties by lower index.
#[must_use]
pub fn top_experts(probs: &[F64Bits], topk: usize) -> (ids: Vec<usize>)
    requires
        comparable(probs@),
    ensures
        ids.len() == vstd::math::min(topk as int, probs@.len() as int),
        in_rank_order(probs@, ids@),
        outranks_rest(probs@, ids@),
{
    let mut ids: Vec<usize> = Vec::new();
    while ids.len() < topk && ids.len() < probs.len()
        invariant
            ids.len() <= topk,
            ids.len() <= probs@.len(),
            comparable(probs@),
            in_rank_order(probs@, ids@),
            outranks_rest(probs@, ids@),
        decreases probs@.len() - ids.len(),
    {
        let ghost before = ids@;
        match best_outside(probs, &ids) {
            Some(b) => {
                ids.push(b);
                proof {
                    lemma_next_rank(probs@, before, b);
                }
            },
            None => {
                proof {
                    lemma_all_taken(probs@.len(), ids@);
                }
                return ids;
            },
        }
    }
    ids
}

/// The best expert outside the list is the next in rank.
proof fn lemma_next_rank(probs: Seq<F64Bits>, ids: Seq<usize>, b: usize)
    requires
        in_rank_order(probs, ids),
        outranks_rest(probs, ids),
        b < probs.len(),
        !ids.contains(b),
        leads_below(probs, ids, b, probs.len() as int),
    ensures
        in_rank_order(probs, ids.push(b)),
        outranks_rest(probs, ids.push(b)),
{
    let more = ids.push(b);
    assert forall|i: int, j: int| 0 <= i < j < more.len() implies ranks_before(
        probs,
        #[trigger] more[i],
        #[trigger] more[j],
    ) by {
        assert(more[i] == ids[i]);
        if j == ids.len() {
            assert(ranks_before(probs, ids[i], b));
        } else {
            assert(more[j] == ids[j]);
        }
    }
    assert forall|i: int, e: usize|
        0 <= i < more.len() && e < probs.len() && !more.contains(e) implies #[trigger] ranks_before(
        probs,
        more[i],
        e,
    ) by {
        assert(more[ids.len() as int] == b);
        if ids.contains(e) {
            let k = choose|k: int| 0 <= k < ids.len() && ids[k] == e;
            assert(more[k] == e);
        }
        if i < ids.len() {
            assert(ranks_before(probs, ids[i], e));
        } else {
            assert(ranks_before(probs, b, e));
        }
    }
}

/// A list that holds every expert is as long as there are experts.
proof fn lemma_all_taken(n: nat, ids: Seq<usize>)
    requires
        n <= usize::MAX,
        forall|e: usize| e < n ==> #[trigger] ids.contains(e),
    ensures
        ids.len() >= n,
{
    let all = Set::new(|e: usize| e < n);
    let taken = ids.to_set();
    assert(all.subset_of(taken)) by {
        assert forall|e: usize| all.contains(e) implies taken.contains(e) by {
            assert(ids.contains(e));
        }
    }
    vstd::seq_lib::seq_to_set_is_finite(ids);
    ids.lemma_cardinality_of_set();
    lemma_range_len(n);
    vstd::set_lib::lemma_len_subset(all, taken);
}

proof fn lemma_range_len(n: nat)
    requires
        n <= usize::MAX,
    ensures
        Set::new(|e: usize| e < n).finite(),
        Set::new(|e: usize| e < n).len() == n,
    decreases n,
{
    let s = Set::new(|e: usize| e < n);
    if n == 0 {
        assert(s =~= Set::empty());
    } else {
        lemma_range_len((n - 1) as nat);
        let t = Set::new(|e: usize| e < (n - 1) as nat);
        assert(s =~= t.insert((n - 1) as usize));
    }
}

} // verus!
