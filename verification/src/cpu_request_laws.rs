//! What becomes of a request of the CPU engine, from the queue to its report.

use vstd::prelude::*;

use crate::cpu_engine::admit_from;
use crate::cpu_engine::decode_all;
use crate::cpu_engine::exhausted_slots;
use crate::cpu_engine::first_waiting;
use crate::cpu_engine::newest;
use crate::cpu_engine::taken;
use crate::cpu_engine::CpuView;
use crate::cpu_engine::PendingView;
use crate::cpu_engine::SlotView;

verus! {

/// A slot after it decoded once for each of the tokens that the model gave.
pub open spec fn fed(s: SlotView, tokens: Seq<u32>) -> SlotView
    decreases tokens.len(),
{
    if tokens.len() == 0 {
        s
    } else {
        (SlotView { next: tokens.last(), ..fed(s, tokens.drop_last()) }).decoded()
    }
}

/// A request reports its own id and prompt length, what the cache served and what was computed,
/// and the model's tokens up to its budget; it is done exactly when the budget is used up.
pub proof fn lemma_request_life(
    p: PendingView,
    next: u32,
    reused: usize,
    computed: usize,
    tokens: Seq<u32>,
)
    requires
        p.prompt.len() <= usize::MAX,
    ensures
        ({
            let s = fed(p.admitted().served(next, reused, computed), tokens);
            let r = s.record();
            &&& r.id == p.id
            &&& r.total_prompt_tokens == p.prompt.len()
            &&& r.reused_tokens == reused
            &&& r.computed_tokens == computed
            &&& tokens.len() <= p.max_new ==> r.generated == tokens
            &&& tokens.len() > p.max_new ==> r.generated == tokens.take(p.max_new as int)
            &&& s.exhausted() <==> tokens.len() >= p.max_new
            &&& s.decoding && s.max_new == p.max_new && s.prompt == p.prompt
            &&& !p.admitted().decoding
            &&& !p.admitted().exhausted()
            &&& p.admitted().decoded() == p.admitted()
        }),
    decreases tokens.len(),
{
    if tokens.len() > 0 {
        let fewer = tokens.drop_last();
        lemma_request_life(p, next, reused, computed, fewer);
        if tokens.len() <= p.max_new {
            assert(fewer.push(tokens.last()) =~= tokens);
        } else {
            assert(tokens.take(p.max_new as int) =~= fewer.take(p.max_new as int));
            if fewer.len() == p.max_new {
                assert(fewer.take(p.max_new as int) =~= fewer);
            }
        }
    } else {
        assert(p.admitted().generated =~= tokens);
    }
}

/// A request that finishes leaves its slot, stands last among the finished ones (unless none is
/// kept), and is counted once with its report's numbers. Nothing else changes.
pub proof fn lemma_finish(v: CpuView, idx: int)
    requires
        0 <= idx < v.slots.len(),
        v.slots[idx] is Some,
        v.slots[idx]->0.prompt.len() <= usize::MAX,
        v.stats_room(v.slots[idx]->0),
    ensures
        ({
            let w = v.finished_slot(idx);
            let r = v.slots[idx]->0.record();
            &&& w.slots.len() == v.slots.len()
            &&& w.slots[idx] is None
            &&& forall|i: int|
                0 <= i < v.slots.len() && i != idx ==> #[trigger] w.slots[i] == v.slots[i]
            &&& v.max_finished > 0 ==> w.finished.len() > 0 && w.finished.last() == r
            &&& w.stats.requests == v.stats.requests + 1
            &&& w.stats.steps == v.stats.steps
            &&& w.stats.prompt_tokens_total == v.stats.prompt_tokens_total + r.total_prompt_tokens
            &&& w.stats.prompt_tokens_reused == v.stats.prompt_tokens_reused + r.reused_tokens
            &&& w.stats.prompt_tokens_computed == v.stats.prompt_tokens_computed
                + r.computed_tokens
            &&& w.stats.decoded_tokens == v.stats.decoded_tokens + r.generated.len()
            &&& w.pending == v.pending
            &&& (w.max_pending, w.max_finished, w.next_id) == (
                v.max_pending,
                v.max_finished,
                v.next_id,
            )
        }),
{
}

/// A step that begins admits and is counted; requests, records and limits stay.
pub proof fn lemma_step_counted(v: CpuView)
    requires
        v.stats.steps < u64::MAX,
    ensures
        ({
            let w = v.admitted().counted_step();
            &&& w.stats.steps == v.stats.steps + 1
            &&& w.stats.requests == v.stats.requests
            &&& w.stats.prompt_tokens_total == v.stats.prompt_tokens_total
            &&& w.stats.prompt_tokens_reused == v.stats.prompt_tokens_reused
            &&& w.stats.prompt_tokens_computed == v.stats.prompt_tokens_computed
            &&& w.stats.decoded_tokens == v.stats.decoded_tokens
            &&& w.finished == v.finished
            &&& (w.max_pending, w.max_finished, w.next_id) == (
                v.max_pending,
                v.max_finished,
                v.next_id,
            )
            &&& v.pending.len() == 0 ==> w.slots == v.slots && w.pending == v.pending
        }),
{
}

/// The engine is idle exactly if no request waits and no slot is taken.
pub proof fn lemma_idle(v: CpuView)
    ensures
        v.idle() <==> v.pending.len() == 0 && !(exists|i: int|
            0 <= i < v.slots.len() && (#[trigger] v.slots[i]) is Some),
{
}

/// Of a list that outgrows its limit the last entries stay, in their order.
pub proof fn lemma_newest<A>(s: Seq<A>, n: int)
    requires
        0 <= n,
    ensures
        newest(s, n).len() == vstd::math::min(n, s.len() as int),
        forall|i: int|
            1 <= i <= newest(s, n).len() ==> #[trigger] newest(s, n)[newest(s, n).len() - i]
                == s[s.len() - i],
{
}

/// Free slots among the first `n`.
pub open spec fn free_below(slots: Seq<Option<SlotView>>, n: nat) -> nat
    decreases n,
{
    if n == 0 {
        0
    } else if slots[n - 1] is None {
        free_below(slots, (n - 1) as nat) + 1
    } else {
        free_below(slots, (n - 1) as nat)
    }
}

/// Admission from slot `i` on: a taken slot keeps its request; the `k`-th free slot gets the
/// `k`-th request of the queue, unserved, while there is one.
pub proof fn lemma_admission_order(
    slots: Seq<Option<SlotView>>,
    pending: Seq<PendingView>,
    i: nat,
    j: int,
)
    requires
        i <= j < slots.len(),
    ensures
        ({
            let r = admit_from(slots, pending, i);
            let k = free_below(slots, j as nat) - free_below(slots, i);
            &&& 0 <= k
            &&& r.0.len() == slots.len()
            &&& forall|m: int| 0 <= m < i ==> #[trigger] r.0[m] == slots[m]
            &&& slots[j] is Some ==> r.0[j] == slots[j]
            &&& slots[j] is None && k < pending.len() ==> r.0[j] == Some(pending[k].admitted())
            &&& slots[j] is None && k >= pending.len() ==> r.0[j] is None
        }),
    decreases slots.len() - i,
{
    lemma_free_grows(slots, i, j as nat);
    reveal_with_fuel(admit_from, 2);
    if i < slots.len() && pending.len() > 0 {
        if slots[i as int] is None {
            let more = slots.update(i as int, Some(pending[0].admitted()));
            if j > i {
                lemma_free_after(slots, more, i, i + 1, j as nat);
                lemma_admission_order(more, pending.skip(1), i + 1, j);
            } else if i + 1 < slots.len() {
                lemma_admission_order(more, pending.skip(1), i + 1, (i + 1) as int);
            }
        } else {
            if j > i {
                lemma_admission_order(slots, pending, i + 1, j);
            } else if i + 1 < slots.len() {
                lemma_admission_order(slots, pending, i + 1, (i + 1) as int);
            }
        }
    }
}

proof fn lemma_free_grows(slots: Seq<Option<SlotView>>, i: nat, j: nat)
    requires
        i <= j,
    ensures
        free_below(slots, i) <= free_below(slots, j),
    decreases j,
{
    if i < j {
        lemma_free_grows(slots, i, (j - 1) as nat);
    }
}

proof fn lemma_free_after(
    a: Seq<Option<SlotView>>,
    b: Seq<Option<SlotView>>,
    i: nat,
    m: nat,
    j: nat,
)
    requires
        i < a.len() == b.len(),
        m == i + 1 <= j <= a.len(),
        a[i as int] is None,
        b[i as int] is Some,
        forall|k: int| 0 <= k < a.len() && k != i ==> #[trigger] a[k] == b[k],
    ensures
        free_below(b, j) - free_below(b, m) + 1 == free_below(a, j) - free_below(a, i),
    decreases j,
{
    if j > m {
        lemma_free_after(a, b, i, m, (j - 1) as nat);
        assert(a[j - 1] == b[j - 1]);
    }
}

/// A step prefills the first slot whose prompt is not computed yet; it names none only if there
/// is none.
pub proof fn lemma_prefills_first(slots: Seq<Option<SlotView>>, i: nat)
    requires
        slots.len() <= usize::MAX,
    ensures
        match first_waiting(slots, i) {
            Some(k) => {
                &&& i <= k < slots.len()
                &&& slots[k as int] is Some && !slots[k as int]->0.decoding
                &&& forall|m: int|
                    i <= m < k ==> (#[trigger] slots[m]) is None || slots[m]->0.decoding
            },
            None => forall|m: int|
                i <= m < slots.len() ==> (#[trigger] slots[m]) is None || slots[m]->0.decoding,
        },
    decreases slots.len() - i,
{
    if i < slots.len() && !(slots[i as int] is Some && !slots[i as int]->0.decoding) {
        lemma_prefills_first(slots, i + 1);
    }
}

/// Decoding gives the pending token of every slot that decodes and has budget left, once, in the
/// order of the slots, and appends it to what that slot generated.
pub proof fn lemma_decode(slots: Seq<Option<SlotView>>, n: nat)
    requires
        n <= slots.len() <= usize::MAX,
    ensures
        ({
            let t = taken(slots, n);
            &&& forall|k: int|
                0 <= k < t.len() ==> (#[trigger] t[k]).0 < n && slots[t[k].0 as int] is Some
                    && slots[t[k].0 as int]->0.decoding && slots[t[k].0 as int]->0.generated.len()
                    < slots[t[k].0 as int]->0.max_new && t[k].1 == slots[t[k].0 as int]->0.next
                    && decode_all(slots)[t[k].0 as int] == Some(
                    SlotView {
                        generated: slots[t[k].0 as int]->0.generated.push(t[k].1),
                        ..slots[t[k].0 as int]->0
                    },
                )
            &&& forall|a: int, b: int|
                0 <= a < b < t.len() ==> (#[trigger] t[a]).0 < (#[trigger] t[b]).0
            &&& forall|i: int|
                0 <= i < n && (#[trigger] slots[i]) is Some && slots[i]->0.decoding
                    && slots[i]->0.generated.len() < slots[i]->0.max_new ==> t.contains(
                    (i as usize, slots[i]->0.next),
                )
        }),
    decreases n,
{
    if n > 0 {
        lemma_decode(slots, (n - 1) as nat);
        let before = taken(slots, (n - 1) as nat);
        let t = taken(slots, n);
        assert forall|i: int|
            0 <= i < n && (#[trigger] slots[i]) is Some && slots[i]->0.decoding
                && slots[i]->0.generated.len() < slots[i]->0.max_new implies t.contains(
            (i as usize, slots[i]->0.next),
        ) by {
            let it = (i as usize, slots[i]->0.next);
            if i == n - 1 {
                assert(t == before.push(it));
                assert(t[before.len() as int] == it);
            } else {
                assert(before.contains(it));
                let k = choose|k: int| 0 <= k < before.len() && before[k] == it;
                assert(t[k] == it);
            }
        }
    }
}

/// The slots to finish are those that decode and have used up their budget, each once.
pub proof fn lemma_done(slots: Seq<Option<SlotView>>, n: nat)
    requires
        n <= slots.len() <= usize::MAX,
    ensures
        ({
            let done = exhausted_slots(slots, n);
            &&& forall|a: int, b: int|
                0 <= a < b < done.len() ==> (#[trigger] done[a]) < (#[trigger] done[b])
            &&& forall|i: int|
                0 <= i < n ==> (done.contains(i as usize) <==> (#[trigger] slots[i]) is Some
                    && slots[i]->0.decoding && slots[i]->0.generated.len() >= slots[i]->0.max_new)
            &&& forall|k: int| 0 <= k < done.len() ==> (#[trigger] done[k]) < n
        }),
    decreases n,
{
    if n > 0 {
        lemma_done(slots, (n - 1) as nat);
        let before = exhausted_slots(slots, (n - 1) as nat);
        let done = exhausted_slots(slots, n);
        let last = (n - 1) as usize;
        if done != before {
            assert(done == before.push(last));
            assert(done[before.len() as int] == last);
        }
        assert forall|i: int| 0 <= i < n implies (done.contains(i as usize) <==> (
        #[trigger] slots[i]) is Some && slots[i]->0.decoding && slots[i]->0.generated.len()
            >= slots[i]->0.max_new) by {
            if i < n - 1 {
                if before.contains(i as usize) {
                    let k = choose|k: int| 0 <= k < before.len() && before[k] == i;
                    assert(done[k] == i);
                }
            }
        }
    }
}

} // verus!
