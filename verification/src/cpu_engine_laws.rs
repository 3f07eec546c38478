//! Laws of the CPU engine: every step reduces the work that is left.

use vstd::prelude::*;

use crate::cpu_engine::admit_from;
use crate::cpu_engine::decode_all;
use crate::cpu_engine::exhausted_slots;
use crate::cpu_engine::first_waiting;
use crate::cpu_engine::CpuView;
use crate::cpu_engine::PendingView;
use crate::cpu_engine::SlotView;

verus! {

/// What is left to do for a slot: prefill, the tokens of its budget, and finishing.
pub open spec fn slot_work(s: Option<SlotView>) -> nat {
    match s {
        Some(s) => (1 + (if s.decoding {
            0int
        } else {
            1int
        }) + (if s.generated.len() < s.max_new {
            s.max_new - s.generated.len()
        } else {
            0int
        })) as nat,
        None => 0,
    }
}

pub open spec fn slots_work(slots: Seq<Option<SlotView>>) -> nat
    decreases slots.len(),
{
    if slots.len() == 0 {
        0
    } else {
        slots_work(slots.drop_last()) + slot_work(slots.last())
    }
}

pub open spec fn pending_work(pending: Seq<PendingView>) -> nat
    decreases pending.len(),
{
    if pending.len() == 0 {
        0
    } else {
        (pending[0].max_new + 2) as nat + pending_work(pending.skip(1))
    }
}

pub open spec fn work(v: CpuView) -> nat {
    slots_work(v.slots) + pending_work(v.pending)
}

/// The slots after those in `done` were freed.
pub open spec fn freed(slots: Seq<Option<SlotView>>) -> Seq<Option<SlotView>> {
    slots.map_values(
        |s: Option<SlotView>|
            match s {
                Some(s) => if s.exhausted() {
                    None
                } else {
                    Some(s)
                },
                None => None,
            },
    )
}

/// The state after the requests in `idxs` completed, one after the other.
pub open spec fn finish_all(v: CpuView, idxs: Seq<usize>) -> CpuView
    decreases idxs.len(),
{
    if idxs.len() == 0 {
        v
    } else {
        finish_all(v, idxs.drop_last()).finished_slot(idxs.last() as int)
    }
}

/// One whole step: admission, the prefill it names with what the cache served, decoding, and
/// finishing.
pub open spec fn whole_step(v: CpuView, next: u32, reused: usize, computed: usize) -> CpuView {
    let a = v.admitted().counted_step();
    let b = match first_waiting(a.slots, 0) {
        Some(i) => CpuView {
            slots: a.slots.update(
                i as int,
                Some(a.slots[i as int]->0.served(next, reused, computed)),
            ),
            ..a
        },
        None => a,
    };
    let c = CpuView { slots: decode_all(b.slots), ..b };
    finish_all(c, exhausted_slots(c.slots, c.slots.len()))
}

proof fn lemma_update_work(slots: Seq<Option<SlotView>>, i: int, s: Option<SlotView>)
    requires
        0 <= i < slots.len(),
    ensures
        slots_work(slots.update(i, s)) == slots_work(slots) - slot_work(slots[i]) + slot_work(s),
    decreases slots.len(),
{
    let u = slots.update(i, s);
    if i == slots.len() - 1 {
        assert(u.drop_last() =~= slots.drop_last());
    } else {
        lemma_update_work(slots.drop_last(), i, s);
        assert(u.drop_last() =~= slots.drop_last().update(i, s));
    }
}

/// Admission moves work from the queue into the slots and keeps its amount.
pub proof fn lemma_admission_keeps_work(
    slots: Seq<Option<SlotView>>,
    pending: Seq<PendingView>,
    i: nat,
)
    ensures
        ({
            let r = admit_from(slots, pending, i);
            &&& slots_work(r.0) + pending_work(r.1) == slots_work(slots) + pending_work(pending)
            &&& r.0.len() == slots.len()
        }),
    decreases slots.len() - i,
{
    if i < slots.len() && pending.len() > 0 {
        if slots[i as int] is None {
            let next = Some(pending[0].admitted());
            lemma_update_work(slots, i as int, next);
            lemma_admission_keeps_work(slots.update(i as int, next), pending.skip(1), i + 1);
        } else {
            lemma_admission_keeps_work(slots, pending, i + 1);
        }
    }
}

/// Slots are filled before requests wait: after admission a queued request means that every
/// slot is taken.
pub proof fn lemma_admission_fills(
    slots: Seq<Option<SlotView>>,
    pending: Seq<PendingView>,
    i: nat,
)
    requires
        forall|k: int| 0 <= k < i && k < slots.len() ==> (#[trigger] slots[k]) is Some,
    ensures
        ({
            let r = admit_from(slots, pending, i);
            r.1.len() > 0 ==> forall|k: int|
                0 <= k < r.0.len() ==> (#[trigger] r.0[k]) is Some
        }),
    decreases slots.len() - i,
{
    if i < slots.len() && pending.len() > 0 {
        if slots[i as int] is None {
            let next = slots.update(i as int, Some(pending[0].admitted()));
            lemma_admission_fills(next, pending.skip(1), i + 1);
        } else {
            lemma_admission_fills(slots, pending, i + 1);
        }
    }
}

/// Requests are admitted in the order in which they were queued.
pub proof fn lemma_admission_is_fifo(
    slots: Seq<Option<SlotView>>,
    pending: Seq<PendingView>,
    i: nat,
)
    ensures
        exists|n: int|
            0 <= n <= pending.len() && admit_from(slots, pending, i).1 == #[trigger] pending.skip(
                n,
            ),
    decreases slots.len() - i,
{
    assert(pending.skip(0) =~= pending);
    if i < slots.len() && pending.len() > 0 {
        if slots[i as int] is None {
            let next = slots.update(i as int, Some(pending[0].admitted()));
            lemma_admission_is_fifo(next, pending.skip(1), i + 1);
            let n = choose|n: int|
                0 <= n <= pending.skip(1).len() && admit_from(next, pending.skip(1), i + 1).1
                    == #[trigger] pending.skip(1).skip(n);
            assert(pending.skip(1).skip(n) =~= pending.skip(n + 1));
        } else {
            lemma_admission_is_fifo(slots, pending, i + 1);
        }
    }
}

proof fn lemma_first_waiting(slots: Seq<Option<SlotView>>, i: nat)
    requires
        slots.len() <= usize::MAX,
    ensures
        match first_waiting(slots, i) {
            Some(k) => i <= k < slots.len() && slots[k as int] is Some
                && !slots[k as int]->0.decoding,
            None => forall|k: int|
                i <= k < slots.len() ==> (#[trigger] slots[k]) is None || slots[k]->0.decoding,
        },
    decreases slots.len() - i,
{
    if i < slots.len() && !(slots[i as int] is Some && !slots[i as int]->0.decoding) {
        lemma_first_waiting(slots, i + 1);
    }
}

/// Decoding and freeing never adds work.
proof fn lemma_pass_work(slots: Seq<Option<SlotView>>)
    ensures
        slots_work(freed(decode_all(slots))) <= slots_work(slots),
        (exists|k: int| 0 <= k < slots.len() && (#[trigger] slots[k]) is Some && slots[k]->0.decoding)
            ==> slots_work(freed(decode_all(slots))) < slots_work(slots),
    decreases slots.len(),
{
    if slots.len() > 0 {
        let front = slots.drop_last();
        lemma_pass_work(front);
        assert(freed(decode_all(slots)).drop_last() =~= freed(decode_all(front)));
        if exists|k: int|
            0 <= k < slots.len() && (#[trigger] slots[k]) is Some && slots[k]->0.decoding {
            let k = choose|k: int|
                0 <= k < slots.len() && (#[trigger] slots[k]) is Some && slots[k]->0.decoding;
            if k < front.len() {
                assert(front[k] == slots[k]);
            }
        }
    }
}

proof fn lemma_finish_all(v: CpuView, n: nat)
    requires
        n <= v.slots.len() <= usize::MAX,
    ensures
        ({
            let w = finish_all(v, exhausted_slots(v.slots, n));
            &&& w.slots.len() == v.slots.len()
            &&& w.pending == v.pending
            &&& forall|k: int|
                0 <= k < v.slots.len() ==> #[trigger] w.slots[k] == if k < n {
                    freed(v.slots)[k]
                } else {
                    v.slots[k]
                }
        }),
    decreases n,
{
    if n > 0 {
        lemma_finish_all(v, (n - 1) as nat);
        let rest = exhausted_slots(v.slots, (n - 1) as nat);
        if v.slots[n - 1] is Some && v.slots[n - 1]->0.exhausted() {
            assert(rest.push((n - 1) as usize).drop_last() =~= rest);
        }
    }
}

/// A step that completes leaves less to do, so stepping until the engine is idle ends.
pub proof fn lemma_step_reduces_work(v: CpuView, next: u32, reused: usize, computed: usize)
    requires
        v.wf(),
        v.slots.len() <= usize::MAX,
        !v.admitted().idle(),
    ensures
        work(whole_step(v, next, reused, computed)) < work(v),
{
    lemma_admission_keeps_work(v.slots, v.pending, 0);
    lemma_admission_fills(v.slots, v.pending, 0);
    let a = v.admitted().counted_step();
    lemma_first_waiting(a.slots, 0);
    let b = match first_waiting(a.slots, 0) {
        Some(i) => CpuView {
            slots: a.slots.update(
                i as int,
                Some(a.slots[i as int]->0.served(next, reused, computed)),
            ),
            ..a
        },
        None => a,
    };
    match first_waiting(a.slots, 0) {
        Some(i) => {
            lemma_update_work(
                a.slots,
                i as int,
                Some(a.slots[i as int]->0.served(next, reused, computed)),
            );
        },
        None => {
            if a.pending.len() > 0 {
                assert(a.slots[0] is Some);
            }
            let k = choose|k: int| 0 <= k < a.slots.len() && !((#[trigger] a.slots[k]) is None);
            assert(a.slots[k] is Some && a.slots[k]->0.decoding);
        },
    }
    lemma_pass_work(b.slots);
    let c = CpuView { slots: decode_all(b.slots), ..b };
    lemma_finish_all(c, c.slots.len());
    let w = finish_all(c, exhausted_slots(c.slots, c.slots.len()));
    assert(w.slots =~= freed(c.slots));
}

} // verus!
